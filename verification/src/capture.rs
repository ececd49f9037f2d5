//! The record of every request but those of the control plane.

use vstd::prelude::*;

use crate::audio_probe::{self, measure};
use crate::codec::{self, to_text, READ_DEPTH};
use crate::handlers::audio::TRANSCRIPTIONS_PATH;
use crate::json::{self, Json, Members, Tree};
use crate::response::{ParsedRequest, RequestModel};
use crate::state::{State, StateModel};
use crate::text::same;

verus! {

/// The record of a request: what was asked, what the audio of a transcription was, and when it
/// came in.
pub open spec fn capture_entry(req: RequestModel, at_ms: u64, rms: Tree) -> Tree {
    Tree::Obj(
        map![
            "path"@ => Tree::Str(req.path),
            "headers"@ => req.headers,
            "body"@ => req.body,
            "audio"@ => if req.path == TRANSCRIPTIONS_PATH@ {
                audio_probe::measured(req.raw, rms)
            } else {
                Tree::Null
            },
            "at_ms"@ => json::num(at_ms),
        ],
    )
}

/// The line that mirrors a record, where records are mirrored.
pub open spec fn log_line(s: StateModel, entry: Tree) -> Option<Seq<char>> {
    if s.log_stdout || s.log_file {
        Some(codec::written(entry))
    } else {
        None
    }
}

/// Records a request; the line to log, if there is one, which reads back as the record.
pub fn record(state: &mut State, req: &ParsedRequest, at_ms: u64, rms: Json) -> (r: Option<String>)
    ensures
        final(state)@ == (StateModel {
            captures: old(state)@.captures.push(capture_entry(req@, at_ms, rms@)),
            ..old(state)@
        }),
        json::text_opt(r) == log_line(old(state)@, capture_entry(req@, at_ms, rms@)),
        r matches Some(l) ==> json::lossless(capture_entry(req@, at_ms, rms@), READ_DEPTH as nat) ==> (
        codec::read_text(l@) == Ok::<Tree, Seq<char>>(capture_entry(req@, at_ms, rms@))),
{
    let audio = if same(req.path.as_str(), TRANSCRIPTIONS_PATH) {
        measure(req.raw.as_slice(), rms)
    } else {
        Json::Null
    };
    let entry = Members::new().with("path", Json::text(req.path.as_str())).with(
        "headers",
        req.headers.copy(),
    ).with("body", req.body.copy()).with("audio", audio).with("at_ms", Json::number(at_ms)).done();
    let line = if state.logs() {
        Some(to_text(&entry))
    } else {
        None
    };
    state.capture(entry);
    line
}

} // verus!
