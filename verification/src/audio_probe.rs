//! What the audio of a transcription request is: found in the multipart upload, read as
//! signed 16-bit little-endian samples, and measured, so that silence can be told from speech.

use vstd::prelude::*;
use vstd::string::*;

use crate::json::{self, Json, Members, Tree};
use crate::text;

verus! {

/// Samples up to this size are no different from a dead microphone.
pub const SILENT_PEAK: u64 = 64;

/// What announces the part that carries the audio.
pub const FILE_MARKER: &'static str = "name=\"file\"";

/// What ends the headers of a part.
pub const HEADER_END: &'static str = "\r\n\r\n";

/// What ends a part: the boundary belongs to the envelope, not to the audio.
pub const PART_END: &'static str = "\r\n--";

/// The place of a row of bytes in another.
fn find(haystack: &[u8], needle: &[u8]) -> (r: Option<usize>)
    ensures
        match r {
            Some(i) => text::position(haystack@, needle@) == Some(i as int),
            None => text::position(haystack@, needle@) is None,
        },
        r matches Some(i) ==> i + needle@.len() <= haystack@.len(),
{
    if needle.len() > haystack.len() {
        return None;
    }
    let last: usize = haystack.len() - needle.len();
    let mut i: usize = 0;
    loop
        invariant
            i <= last,
            last + needle.len() == haystack.len(),
            forall|j: int| j < i ==> !text::occurs_at(haystack@, needle@, j),
        decreases last - i,
    {
        let mut k: usize = 0;
        while k < needle.len() && haystack[i + k] == needle[k]
            invariant
                k <= needle@.len(),
                i <= last,
                last + needle.len() == haystack.len(),
                forall|j: int| 0 <= j < k ==> haystack@[i + j] == needle@[j],
            decreases needle@.len() - k,
        {
            k += 1;
        }
        if k == needle.len() {
            proof {
                assert(haystack@.subrange(i as int, i + needle@.len()) =~= needle@);
                assert(text::occurs_at(haystack@, needle@, i as int));
                text::lemma_position_is(haystack@, needle@, i as int);
            }
            return Some(i);
        }
        assert(!text::occurs_at(haystack@, needle@, i as int)) by {
            assert(haystack@[i + k] != needle@[k as int]);
        }
        if i == last {
            return None;
        }
        i += 1;
    }
}

/// The bytes of an ASCII mark.
pub open spec fn mark(s: Seq<char>) -> Seq<u8> {
    vstd::utf8::encode_utf8(s)
}

/// The audio of an upload: what follows the headers of the part named `file`, up to the
/// boundary or the end; nothing where there is no such part or it is empty.
pub open spec fn file_part(raw: Seq<u8>) -> Option<Seq<u8>> {
    match text::position(raw, mark(FILE_MARKER@)) {
        Some(at) => match text::position(raw.skip(at), mark(HEADER_END@)) {
            Some(h) => {
                let rest = raw.skip(at + h + mark(HEADER_END@).len());
                let audio = match text::position(rest, mark(PART_END@)) {
                    Some(end) => rest.take(end),
                    None => rest,
                };
                if audio.len() > 0 {
                    Some(audio)
                } else {
                    None
                }
            },
            None => None,
        },
        None => None,
    }
}

/// The audio of an upload.
fn file_bytes(raw: &[u8]) -> (r: Option<&[u8]>)
    ensures
        match r {
            Some(a) => file_part(raw@) == Some(a@),
            None => file_part(raw@) is None,
        },
{
    let marker = FILE_MARKER.as_bytes_vec();
    let header_end = HEADER_END.as_bytes_vec();
    let part_end = PART_END.as_bytes_vec();
    let at: usize = match find(raw, marker.as_slice()) {
        Some(i) => i,
        None => return None,
    };
    let tail = vstd::slice::slice_subrange(raw, at, raw.len());
    assert(tail@ =~= raw@.skip(at as int));
    let h: usize = match find(tail, header_end.as_slice()) {
        Some(i) => i,
        None => return None,
    };
    let start: usize = h + header_end.len();
    let rest = vstd::slice::slice_subrange(tail, start, tail.len());
    assert(rest@ =~= raw@.skip(at + h + mark(HEADER_END@).len()));
    let end: usize = match find(rest, part_end.as_slice()) {
        Some(i) => i,
        None => rest.len(),
    };
    assert(rest@.take(rest@.len() as int) =~= rest@);
    if end == 0 {
        return None;
    }
    let audio = vstd::slice::slice_subrange(rest, 0, end);
    assert(audio@ =~= rest@.take(end as int));
    Some(audio)
}

/// The signed number of two bytes, the low one first.
pub open spec fn sample_of(lo: u8, hi: u8) -> int {
    let u = lo + 256 * hi;
    if u >= 0x8000 {
        u - 0x1_0000
    } else {
        u
    }
}

/// The samples of audio; a byte left over at the end counts for nothing.
pub open spec fn samples_of(audio: Seq<u8>) -> Seq<int> {
    Seq::new((audio.len() / 2) as nat, |i: int| sample_of(audio[2 * i], audio[2 * i + 1]))
}

/// The size of a sample.
pub open spec fn size_of_sample(s: int) -> nat {
    if s < 0 {
        (-s) as nat
    } else {
        s as nat
    }
}

/// The size of the largest sample.
pub open spec fn peak_of(samples: Seq<int>) -> nat
    decreases samples.len(),
{
    if samples.len() == 0 {
        0
    } else {
        let before = peak_of(samples.drop_last());
        let last = size_of_sample(samples.last());
        if before < last {
            last
        } else {
            before
        }
    }
}

/// The samples that a request carries, if it carries any.
pub open spec fn request_samples(raw: Seq<u8>) -> Option<Seq<int>> {
    match file_part(raw) {
        Some(a) => if a.len() >= 2 {
            Some(samples_of(a))
        } else {
            None
        },
        None => None,
    }
}

/// The samples as mathematical integers.
pub open spec fn sample_values(v: Seq<i16>) -> Seq<int> {
    v.map_values(|s: i16| s as int)
}

/// The number of two bytes.
fn sample(lo: u8, hi: u8) -> (r: i16)
    ensures
        r == sample_of(lo, hi),
{
    let u: i32 = lo as i32 + 256 * (hi as i32);
    if u >= 0x8000 {
        (u - 0x1_0000) as i16
    } else {
        u as i16
    }
}

/// The samples of audio.
fn read_samples(audio: &[u8]) -> (r: Vec<i16>)
    ensures
        sample_values(r@) == samples_of(audio@),
{
    let mut out: Vec<i16> = Vec::new();
    let n: usize = audio.len() / 2;
    let mut i: usize = 0;
    while i < n
        invariant
            i <= n,
            n == audio.len() / 2,
            out.len() == i,
            forall|j: int|
                0 <= j < i ==> (#[trigger] out@[j]) == sample_of(audio@[2 * j], audio@[2 * j + 1]),
        decreases n - i,
    {
        out.push(sample(audio[2 * i], audio[2 * i + 1]));
        i += 1;
    }
    assert(sample_values(out@) =~= samples_of(audio@));
    out
}

/// The samples that a request carries: what its mean energy is computed from.
pub fn samples(raw: &[u8]) -> (r: Option<Vec<i16>>)
    ensures
        match r {
            Some(v) => request_samples(raw@) == Some(sample_values(v@)),
            None => request_samples(raw@) is None,
        },
{
    match file_bytes(raw) {
        Some(a) => if a.len() >= 2 {
            Some(read_samples(a))
        } else {
            None
        },
        None => None,
    }
}

/// The size of the largest sample.
fn peak(v: &Vec<i16>) -> (r: u64)
    ensures
        r == peak_of(sample_values(v@)),
{
    let mut top: u64 = 0;
    let mut i: usize = 0;
    let ghost all = sample_values(v@);
    assert(all.take(0) =~= Seq::empty());
    while i < v.len()
        invariant
            i <= v.len(),
            all == sample_values(v@),
            top == peak_of(all.take(i as int)),
        decreases v.len() - i,
    {
        let s: i64 = v[i] as i64;
        let size: u64 = if s < 0 {
            (-s) as u64
        } else {
            s as u64
        };
        if top < size {
            top = size;
        }
        assert(all.take(i + 1).drop_last() =~= all.take(i as int));
        i += 1;
    }
    assert(all.take(i as int) =~= all);
    top
}

/// What is reported of the audio of a request: its sizes, its peak, its mean energy, which is
/// handed in, and whether it is silent; null for a request without audio.
pub open spec fn measured(raw: Seq<u8>, rms: Tree) -> Tree {
    match request_samples(raw) {
        Some(s) => Tree::Obj(
            map![
                "bytes"@ => json::num(file_part(raw)->0.len() as u64),
                "samples"@ => json::num(s.len() as u64),
                "peak"@ => json::num(peak_of(s) as u64),
                "rms"@ => rms,
                "silent"@ => Tree::Bool(peak_of(s) <= SILENT_PEAK),
            ],
        ),
        None => Tree::Null,
    }
}

/// The request carries audio, and all of it is as good as zero.
pub open spec fn silent(raw: Seq<u8>) -> bool {
    request_samples(raw) matches Some(s) && peak_of(s) <= SILENT_PEAK
}

/// Measures the audio of a request. The mean energy is a value that the caller computed from
/// the samples.
pub fn measure(raw: &[u8], rms: Json) -> (r: Json)
    ensures
        r@ == measured(raw@, rms@),
{
    let audio = match file_bytes(raw) {
        Some(a) => a,
        None => return Json::Null,
    };
    if audio.len() < 2 {
        return Json::Null;
    }
    let v = read_samples(audio);
    let top: u64 = peak(&v);
    assert(v@.len() == sample_values(v@).len());
    Members::new().with("bytes", Json::number(audio.len() as u64)).with(
        "samples",
        Json::number(v.len() as u64),
    ).with("peak", Json::number(top)).with("rms", rms).with(
        "silent",
        Json::Bool(top <= SILENT_PEAK),
    ).done()
}

/// Whether the request carries audio that is no different from a dead microphone.
pub fn is_silent(raw: &[u8]) -> (r: bool)
    ensures
        r == silent(raw@),
{
    match samples(raw) {
        Some(v) => peak(&v) <= SILENT_PEAK,
        None => false,
    }
}

/// The report and the verdict agree: a request is silent exactly when its measurement says so,
/// whatever its mean energy.
pub proof fn law_silence_is_reported(raw: Seq<u8>, rms: Tree)
    ensures
        silent(raw) <==> measured(raw, rms).bool_at("silent"@) == Some(true),
{
}

/// Audio is silent exactly when no sample of it is larger than the limit.
pub proof fn law_silence_means_small(raw: Seq<u8>)
    ensures
        silent(raw) <==> (request_samples(raw) matches Some(s) && forall|i: int|
            0 <= i < s.len() ==> size_of_sample(#[trigger] s[i]) <= SILENT_PEAK),
{
    if let Some(s) = request_samples(raw) {
        lemma_peak_bounds(s, SILENT_PEAK as nat);
    }
}

/// The peak is within a bound exactly when every sample is.
proof fn lemma_peak_bounds(s: Seq<int>, bound: nat)
    ensures
        peak_of(s) <= bound <==> forall|i: int|
            0 <= i < s.len() ==> size_of_sample(#[trigger] s[i]) <= bound,
    decreases s.len(),
{
    if s.len() > 0 {
        let rest = s.drop_last();
        lemma_peak_bounds(rest, bound);
        assert(s.last() == s[s.len() - 1]);
        if peak_of(s) <= bound {
            assert forall|i: int| 0 <= i < s.len() implies size_of_sample(#[trigger] s[i])
                <= bound by {
                if i < rest.len() {
                    assert(rest[i] == s[i]);
                }
            }
        }
        if forall|i: int| 0 <= i < s.len() ==> size_of_sample(#[trigger] s[i]) <= bound {
            assert forall|i: int| 0 <= i < rest.len() implies size_of_sample(
                #[trigger] rest[i],
            ) <= bound by {
                assert(rest[i] == s[i]);
            }
            assert(size_of_sample(s[s.len() - 1]) <= bound);
        }
    }
}

/// The audio of an upload is what stands between the headers of its file and the next boundary, or
/// the end where there is none.
pub proof fn law_the_audio_is_between_headers_and_boundary(
    ahead: Seq<u8>,
    headers: Seq<u8>,
    rest: Seq<u8>,
    audio: Seq<u8>,
    behind: Seq<u8>,
)
    requires
        ({
            let name = mark("name=\"file\""@);
            let end = mark("\r\n\r\n"@);
            let part = name + headers + end + rest;
            &&& forall|i: int| i < ahead.len() ==> !text::occurs_at(ahead + part, name, i)
            &&& forall|i: int| i < name.len() + headers.len() ==> !text::occurs_at(part, end, i)
        }),
        audio.len() > 0,
    ensures
        ({
            let raw = ahead + (mark("name=\"file\""@) + headers + mark("\r\n\r\n"@) + rest);
            let bound = mark("\r\n--"@);
            &&& rest == audio + bound + behind && (forall|i: int|
                i < audio.len() ==> !text::occurs_at(rest, bound, i)) ==> file_part(raw) == Some(
                audio,
            )
            &&& rest == audio && !text::occurs(rest, bound) ==> file_part(raw) == Some(audio)
        }),
{
    let name = mark(FILE_MARKER@);
    let end = mark(HEADER_END@);
    let bound = mark(PART_END@);
    let part = name + headers + end + rest;
    let raw = ahead + part;
    let at = ahead.len() as int;
    assert(raw.subrange(at, at + name.len()) =~= name);
    text::lemma_position_is(raw, name, at);
    assert(raw.skip(at) =~= part);
    let h = (name.len() + headers.len()) as int;
    assert(part.subrange(h, h + end.len()) =~= end);
    text::lemma_position_is(part, end, h);
    assert(raw.skip(at + h + end.len()) =~= rest);
    if rest == audio + bound + behind && (forall|i: int|
        i < audio.len() ==> !text::occurs_at(rest, bound, i)) {
        let n = audio.len() as int;
        assert(rest.subrange(n, n + bound.len()) =~= bound);
        text::lemma_position_is(rest, bound, n);
        assert(rest.take(n) =~= audio);
    }
}

/// Each sample is the signed number of sixteen bits of its two bytes, the low one first; there is
/// one to two bytes.
pub proof fn law_samples_are_signed_pairs(audio: Seq<u8>, i: int)
    requires
        0 <= i < audio.len() / 2,
    ensures
        samples_of(audio).len() == audio.len() / 2,
        ({
            let s = samples_of(audio)[i];
            &&& -32768 <= s < 32768
            &&& s == audio[2 * i] + 256 * audio[2 * i + 1] || s == audio[2 * i] + 256 * audio[2 * i
                + 1] - 65536
        }),
{
}

/// What is reported of an upload: how many bytes and samples its audio has, the size of its
/// largest sample, the mean energy that was handed in, and whether no sample is larger than
/// sixty-four. Nothing is reported of an upload without a sample.
pub proof fn law_measurements_tell_the_audio(raw: Seq<u8>, rms: Tree)
    ensures
        ({
            let t = measured(raw, rms);
            match file_part(raw) {
                Some(a) => if a.len() >= 2 {
                    let s = samples_of(a);
                    &&& t.get("bytes"@) == Some(json::num(a.len() as u64))
                    &&& t.get("samples"@) == Some(json::num((a.len() / 2) as u64))
                    &&& t.get("rms"@) == Some(rms)
                    &&& exists|k: int|
                        {
                            &&& 0 <= k < s.len()
                            &&& t.get("peak"@) == Some(
                                json::num(size_of_sample(#[trigger] s[k]) as u64),
                            )
                            &&& forall|i: int|
                                0 <= i < s.len() ==> size_of_sample(#[trigger] s[i])
                                    <= size_of_sample(s[k])
                        }
                    &&& t.get("silent"@) == Some(
                        Tree::Bool(
                            forall|i: int|
                                0 <= i < s.len() ==> size_of_sample(#[trigger] s[i]) <= 64,
                        ),
                    )
                    &&& silent(raw) <==> forall|i: int|
                        0 <= i < s.len() ==> size_of_sample(#[trigger] s[i]) <= 64
                } else {
                    t == Tree::Null && !silent(raw)
                },
                None => t == Tree::Null && !silent(raw),
            }
        }),
{
    if let Some(a) = file_part(raw) {
        if a.len() >= 2 {
            let s = samples_of(a);
            lemma_peak_bounds(s, SILENT_PEAK as nat);
            let k = lemma_peak_reached(s);
            lemma_peak_bounds(s, peak_of(s));
            assert(size_of_sample(s[k]) == peak_of(s));
            reveal_strlit("bytes");
            reveal_strlit("samples");
            reveal_strlit("peak");
            reveal_strlit("rms");
            reveal_strlit("silent");
            assert("bytes"@.len() == 5 && "samples"@.len() == 7 && "peak"@.len() == 4 && "rms"@.len()
                == 3 && "silent"@.len() == 6);
        }
    }
}

/// Some sample is as large as the peak.
proof fn lemma_peak_reached(s: Seq<int>) -> (k: int)
    requires
        s.len() > 0,
    ensures
        0 <= k < s.len(),
        size_of_sample(s[k]) == peak_of(s),
    decreases s.len(),
{
    let rest = s.drop_last();
    if peak_of(rest) < size_of_sample(s.last()) || rest.len() == 0 {
        s.len() - 1
    } else {
        lemma_peak_reached(rest)
    }
}

} // verus!
