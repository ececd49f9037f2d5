//! Endpoint families. Each one owns its paths; capturing, logging and the control plane come
//! before them.

use vstd::prelude::*;

use crate::json::{self, Json, Tree};
use crate::response::{HttpResponse, ParsedRequest, RequestModel, ResponseModel};
use crate::state::{State, StateModel};

pub mod audio;
pub mod chat;
pub mod images;
pub mod models;

verus! {

/// How far a request has come.
pub enum Stage {
    /// It has just been read: when that was, in milliseconds since the epoch, and the mean energy
    /// of the audio that it carries.
    Arrived { at_ms: u64, rms: Json },
    /// The delay ahead of every answer has been paid.
    Connected,
    /// The stall has been sat out; the prompt tokens that were derived ahead of it.
    Stalled { prompt: Option<u64> },
}

/// What a stage holds.
pub enum StageModel {
    Arrived { at_ms: u64, rms: Tree },
    Connected,
    Stalled { prompt: Option<u64> },
}

impl View for Stage {
    type V = StageModel;

    open spec fn view(&self) -> StageModel {
        match self {
            Stage::Arrived { at_ms, rms } => StageModel::Arrived { at_ms: *at_ms, rms: rms@ },
            Stage::Connected => StageModel::Connected,
            Stage::Stalled { prompt } => StageModel::Stalled { prompt: *prompt },
        }
    }
}

/// What the server does next for a request.
pub enum Action {
    /// Wait this many milliseconds, then send the response.
    Respond { delay_ms: u64, response: HttpResponse },
    /// Log the line, if there is one, wait, then go on with the next stage.
    Wait { line: Option<String>, seconds: u64, millis: u64, next: Stage },
    /// Give up: the usage to report exceeds what a number of 64 bits holds.
    Fail,
}

/// What an action holds.
pub enum ActionModel {
    Respond { delay_ms: u64, response: ResponseModel },
    Wait { line: Option<Seq<char>>, seconds: u64, millis: u64, next: StageModel },
    Fail,
}

impl View for Action {
    type V = ActionModel;

    open spec fn view(&self) -> ActionModel {
        match self {
            Action::Respond { delay_ms, response } => ActionModel::Respond {
                delay_ms: *delay_ms,
                response: response@,
            },
            Action::Wait { line, seconds, millis, next } => ActionModel::Wait {
                line: json::text_opt(*line),
                seconds: *seconds,
                millis: *millis,
                next: next@,
            },
            Action::Fail => ActionModel::Fail,
        }
    }
}

/// The response, at once.
pub open spec fn at_once(response: ResponseModel) -> ActionModel {
    ActionModel::Respond { delay_ms: 0, response }
}

/// The response, at once.
pub fn respond(response: HttpResponse) -> (r: Action)
    ensures
        r@ == at_once(response@),
{
    Action::Respond { delay_ms: 0, response }
}

/// The texts of fixed lines.
pub open spec fn line_texts(v: Seq<&'static str>) -> Seq<Seq<char>> {
    v.map_values(|s: &'static str| s@)
}

/// An endpoint family. A path that it is asked about has no query.
pub trait Handler {
    /// The family answers the method on the path.
    spec fn serves(&self, method: Seq<char>, path: Seq<char>) -> bool;

    /// The routes that it advertises.
    spec fn advertised(&self) -> Seq<Seq<char>>;

    /// The state and the action after a request on a path.
    spec fn handled(&self, s: StateModel, req: RequestModel, path: Seq<char>) -> (
        StateModel,
        ActionModel,
    );

    /// Whether the family answers the method on the path.
    fn matches(&self, method: &str, path: &str) -> (r: bool)
        ensures
            r == self.serves(method@, path@),
    ;

    /// Takes a request in.
    fn handle(&self, state: &mut State, req: &ParsedRequest, path: &str) -> (r: Action)
        requires
            old(state).wf(),
        ensures
            final(state).wf(),
            (final(state)@, r@) == self.handled(old(state)@, req@, path@),
    ;

    /// The routes that the family advertises.
    fn routes(&self) -> (r: &'static [&'static str])
        ensures
            line_texts(r@) == self.advertised(),
    ;
}

/// The character of a six-bit digit.
pub open spec fn digit64(v: int) -> char {
    if v < 26 {
        (0x41 + v) as char
    } else if v < 52 {
        (0x61 + v - 26) as char
    } else if v < 62 {
        (0x30 + v - 52) as char
    } else if v == 62 {
        '+'
    } else {
        '/'
    }
}

/// The four characters of up to three bytes: six bits each, and padding where no byte is.
pub open spec fn quad(b: Seq<u8>) -> Seq<char> {
    let b0 = b[0] as int;
    let b1 = if b.len() > 1 {
        b[1] as int
    } else {
        0
    };
    let b2 = if b.len() > 2 {
        b[2] as int
    } else {
        0
    };
    seq![
        digit64(b0 / 4),
        digit64((b0 % 4) * 16 + b1 / 16),
        if b.len() > 1 {
            digit64((b1 % 16) * 4 + b2 / 64)
        } else {
            '='
        },
        if b.len() > 2 {
            digit64(b2 % 64)
        } else {
            '='
        },
    ]
}

/// The base64 text of bytes.
pub open spec fn base64(b: Seq<u8>) -> Seq<char>
    decreases b.len(),
{
    if b.len() == 0 {
        Seq::<char>::empty()
    } else if b.len() <= 3 {
        quad(b)
    } else {
        quad(b.take(3)) + base64(b.skip(3))
    }
}

/// The character of a six-bit digit.
fn char64(v: u8) -> (r: char)
    requires
        v < 64,
    ensures
        r == digit64(v as int),
{
    if v < 26 {
        (0x41 + v) as char
    } else if v < 52 {
        (0x61 + (v - 26)) as char
    } else if v < 62 {
        (0x30 + (v - 52)) as char
    } else if v == 62 {
        '+'
    } else {
        '/'
    }
}

/// The base64 text of bytes, with padding.
pub fn b64(bytes: &[u8]) -> (r: String)
    ensures
        r@ == base64(bytes@),
{
    let mut out = String::new();
    let mut i: usize = 0;
    let n: usize = bytes.len();
    assert(bytes@.skip(0) =~= bytes@);
    while i < n
        invariant
            i <= n,
            n == bytes.len(),
            out@ + base64(bytes@.skip(i as int)) == base64(bytes@),
        decreases n - i,
    {
        let ghost left = bytes@.skip(i as int);
        let ghost before = out@;
        let size: usize = if n - i < 3 {
            n - i
        } else {
            3
        };
        let b0: u8 = bytes[i];
        let b1: u8 = if size > 1 {
            bytes[i + 1]
        } else {
            0
        };
        let b2: u8 = if size > 2 {
            bytes[i + 2]
        } else {
            0
        };
        out.push(char64(b0 / 4));
        out.push(char64((b0 % 4) * 16 + b1 / 16));
        out.push(
            if size > 1 {
                char64((b1 % 16) * 4 + b2 / 64)
            } else {
                '='
            },
        );
        out.push(
            if size > 2 {
                char64(b2 % 64)
            } else {
                '='
            },
        );
        i = i + size;
        proof {
            let chunk = left.take(size as int);
            assert(out@ =~= before + quad(chunk));
            assert(left.skip(size as int) =~= bytes@.skip(i as int));
            if left.len() <= 3 {
                assert(chunk =~= left);
                assert(base64(bytes@.skip(i as int)) =~= Seq::<char>::empty());
                assert(out@ + base64(bytes@.skip(i as int)) =~= before + base64(left));
            } else {
                assert(base64(left) == quad(chunk) + base64(left.skip(3)));
                assert(out@ + base64(bytes@.skip(i as int)) =~= before + base64(left));
            }
        }
    }
    assert(out@ + base64(bytes@.skip(i as int)) =~= out@);
    out
}

/// The value of a six-bit digit.
pub open spec fn value64(c: char) -> int {
    if 'A' <= c <= 'Z' {
        c as int - 0x41
    } else if 'a' <= c <= 'z' {
        c as int - 0x61 + 26
    } else if '0' <= c <= '9' {
        c as int - 0x30 + 52
    } else if c == '+' {
        62
    } else {
        63
    }
}

/// The bytes of four characters.
pub open spec fn unquad(q: Seq<char>) -> Seq<u8> {
    let (v0, v1) = (value64(q[0]), value64(q[1]));
    let (v2, v3) = (value64(q[2]), value64(q[3]));
    let first = (v0 * 4 + v1 / 16) as u8;
    let second = ((v1 % 16) * 16 + v2 / 4) as u8;
    let third = ((v2 % 4) * 64 + v3) as u8;
    if q[2] == '=' {
        seq![first]
    } else if q[3] == '=' {
        seq![first, second]
    } else {
        seq![first, second, third]
    }
}

/// What a client reads out of a base64 text.
pub open spec fn decoded(t: Seq<char>) -> Seq<u8>
    decreases t.len(),
{
    if t.len() < 4 {
        Seq::<u8>::empty()
    } else {
        unquad(t.take(4)) + decoded(t.skip(4))
    }
}

/// A digit gives its value back, and is no padding.
proof fn lemma_digit64(v: int)
    requires
        0 <= v < 64,
    ensures
        value64(digit64(v)) == v,
        digit64(v) != '=',
{
}

/// Four characters give their bytes back.
proof fn lemma_quad(b: Seq<u8>)
    requires
        1 <= b.len() <= 3,
    ensures
        quad(b).len() == 4,
        unquad(quad(b)) == b,
{
    let b0 = b[0] as int;
    let b1 = if b.len() > 1 {
        b[1] as int
    } else {
        0
    };
    let b2 = if b.len() > 2 {
        b[2] as int
    } else {
        0
    };
    lemma_digit64(b0 / 4);
    lemma_digit64((b0 % 4) * 16 + b1 / 16);
    lemma_digit64((b1 % 16) * 4 + b2 / 64);
    lemma_digit64(b2 % 64);
    assert(unquad(quad(b)) =~= b);
}

/// A client that decodes a base64 text gets the very bytes that were encoded.
pub proof fn law_base64_decodes(b: Seq<u8>)
    ensures
        decoded(base64(b)) == b,
    decreases b.len(),
{
    if b.len() == 0 {
        assert(decoded(base64(b)) =~= b);
    } else if b.len() <= 3 {
        lemma_quad(b);
        let t = base64(b);
        assert(t.take(4) =~= quad(b));
        assert(t.skip(4) =~= Seq::empty());
        assert(decoded(t.skip(4)) =~= Seq::empty());
        assert(decoded(t) =~= b);
    } else {
        lemma_quad(b.take(3));
        law_base64_decodes(b.skip(3));
        let t = base64(b);
        assert(t.take(4) =~= quad(b.take(3)));
        assert(t.skip(4) =~= base64(b.skip(3)));
        assert(decoded(t) =~= b.take(3) + b.skip(3));
        assert(b.take(3) + b.skip(3) =~= b);
    }
}

/// Different bytes have different base64 texts.
pub proof fn law_base64_is_faithful(a: Seq<u8>, b: Seq<u8>)
    requires
        base64(a) == base64(b),
    ensures
        a == b,
{
    law_base64_decodes(a);
    law_base64_decodes(b);
}

/// The text of bytes is four characters for every three of them, the last three perhaps not full.
pub proof fn law_base64_length(b: Seq<u8>)
    ensures
        base64(b).len() == 4 * ((b.len() + 2) / 3),
    decreases b.len(),
{
    if b.len() > 3 {
        law_base64_length(b.skip(3));
    }
}

/// A base64 text is made of the sixty-four characters of the standard alphabet, and of padding in
/// its last two places alone.
pub proof fn law_base64_uses_the_standard_alphabet(b: Seq<u8>, i: int)
    requires
        0 <= i < base64(b).len(),
    ensures
        ({
            let c = base64(b)[i];
            ||| 'A' <= c <= 'Z'
            ||| 'a' <= c <= 'z'
            ||| '0' <= c <= '9'
            ||| c == '+'
            ||| c == '/'
            ||| c == '=' && i >= base64(b).len() - 2
        }),
    decreases b.len(),
{
    if b.len() > 3 {
        let first = quad(b.take(3));
        lemma_quad(b.take(3));
        if i >= 4 {
            assert(base64(b)[i] == base64(b.skip(3))[i - 4]);
            law_base64_uses_the_standard_alphabet(b.skip(3), i - 4);
        } else {
            assert(base64(b)[i] == first[i]);
            lemma_digits(b.take(3));
        }
    } else if b.len() > 0 {
        lemma_digits(b);
    }
}

/// The characters of up to three bytes.
proof fn lemma_digits(b: Seq<u8>)
    requires
        1 <= b.len() <= 3,
    ensures
        forall|i: int|
            0 <= i < 4 ==> {
                let c = #[trigger] quad(b)[i];
                ||| 'A' <= c <= 'Z'
                ||| 'a' <= c <= 'z'
                ||| '0' <= c <= '9'
                ||| c == '+'
                ||| c == '/'
                ||| c == '=' && i >= 2 && b.len() < 3
            },
{
}

} // verus!
