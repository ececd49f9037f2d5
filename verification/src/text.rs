//! Text over sequences of characters: searching, splitting, trimming, comparing
//! and the decimal notation of counts.

use vstd::prelude::*;
use vstd::string::*;
use vstd::utf8::*;

verus! {

/// `part` stands in `whole` at position `i`.
pub open spec fn occurs_at<A>(whole: Seq<A>, part: Seq<A>, i: int) -> bool {
    &&& 0 <= i
    &&& i + part.len() <= whole.len()
    &&& whole.subrange(i, i + part.len()) == part
}

/// `part` stands somewhere in `whole`.
pub open spec fn occurs<A>(whole: Seq<A>, part: Seq<A>) -> bool {
    exists|i: int| occurs_at(whole, part, i)
}

/// `i` is the leftmost position of `part` in `whole`.
pub open spec fn first_at<A>(whole: Seq<A>, part: Seq<A>, i: int) -> bool {
    &&& occurs_at(whole, part, i)
    &&& forall|j: int| j < i ==> !occurs_at(whole, part, j)
}

/// Where `part` first stands in `whole`, if it does.
pub open spec fn position<A>(whole: Seq<A>, part: Seq<A>) -> Option<int> {
    if occurs(whole, part) {
        Some(choose|i: int| first_at(whole, part, i))
    } else {
        None
    }
}

/// The leftmost position is unique, and is what `position` names.
pub proof fn lemma_position_is<A>(whole: Seq<A>, part: Seq<A>, i: int)
    requires
        first_at(whole, part, i),
    ensures
        position(whole, part) == Some(i),
{
    let k = choose|k: int| first_at(whole, part, k);
    assert(first_at(whole, part, k));
    assert(occurs_at(whole, part, i));
    assert(occurs_at(whole, part, k));
}

/// The two texts are the same characters.
pub fn same(a: &str, b: &str) -> (r: bool)
    ensures
        r == (a@ == b@),
{
    let x = a.as_bytes();
    let y = b.as_bytes();
    proof {
        encode_utf8_decode_utf8(a@);
        encode_utf8_decode_utf8(b@);
    }
    if x.len() != y.len() {
        return false;
    }
    let mut i: usize = 0;
    while i < x.len()
        invariant
            i <= x.len(),
            x.len() == y.len(),
            x@ == encode_utf8(a@),
            y@ == encode_utf8(b@),
            forall|j: int| 0 <= j < i ==> x@[j] == y@[j],
        decreases x.len() - i,
    {
        if x[i] != y[i] {
            return false;
        }
        i += 1;
    }
    assert(x@ =~= y@);
    true
}

/// The characters of a text, one by one.
pub fn chars(s: &str) -> (r: Vec<char>)
    ensures
        r@ == s@,
{
    let mut out: Vec<char> = Vec::new();
    for c in it: s.chars()
        invariant
            it.seq() == s@,
            out@ == s@.take(it.index() as int),
    {
        out.push(c);
    }
    assert(s@.take(s@.len() as int) =~= s@);
    out
}

/// The place of `part` in `whole`, searched from the left.
pub fn find_chars(whole: &[char], part: &[char]) -> (r: Option<usize>)
    ensures
        match r {
            Some(i) => first_at(whole@, part@, i as int),
            None => !occurs(whole@, part@),
        },
{
    if part.len() > whole.len() {
        return None;
    }
    let last: usize = whole.len() - part.len();
    let mut i: usize = 0;
    while i <= last
        invariant
            part.len() <= whole.len(),
            last == whole.len() - part.len(),
            i <= last + 1,
            forall|j: int| j < i ==> !occurs_at(whole@, part@, j),
        decreases last + 1 - i,
    {
        let mut k: usize = 0;
        while k < part.len() && whole[i + k] == part[k]
            invariant
                i + part.len() <= whole.len(),
                k <= part.len(),
                forall|j: int| 0 <= j < k ==> whole@[i + j] == part@[j],
            decreases part.len() - k,
        {
            k += 1;
        }
        if k == part.len() {
            assert(whole@.subrange(i as int, i + part@.len()) =~= part@);
            return Some(i);
        }
        assert(whole@.subrange(i as int, i + part@.len())[k as int] != part@[k as int]);
        if i == last {
            return None;
        }
        i += 1;
    }
    None
}

/// Appends one character, as `String::push` does: the text grows by exactly that
/// character at its end.
pub assume_specification[ std::string::String::push ](s: &mut std::string::String, c: char)
    ensures
        final(s)@ == old(s)@.push(c),
;

/// The place of `part` in `whole`, counted in characters.
pub fn find(whole: &str, part: &str) -> (r: Option<usize>)
    ensures
        match r {
            Some(i) => first_at(whole@, part@, i as int),
            None => !occurs(whole@, part@),
        },
        r is Some == position(whole@, part@) is Some,
        r matches Some(i) ==> position(whole@, part@) == Some(i as int),
{
    let w = chars(whole);
    let p = chars(part);
    let r = find_chars(w.as_slice(), p.as_slice());
    proof {
        if let Some(i) = r {
            lemma_position_is(whole@, part@, i as int);
            assert(occurs_at(whole@, part@, i as int));
        }
    }
    r
}

/// Whether `part` stands anywhere in `whole`.
pub fn contains(whole: &str, part: &str) -> (r: bool)
    ensures
        r == occurs(whole@, part@),
{
    find(whole, part).is_some()
}

/// Whether the text starts with `prefix`.
pub fn starts_with(s: &str, prefix: &str) -> (r: bool)
    ensures
        r == prefix@.is_prefix_of(s@),
{
    strip_prefix(s, prefix).is_some()
}

/// What follows `prefix`, for a text that starts with it.
pub fn strip_prefix<'a>(s: &'a str, prefix: &str) -> (r: Option<&'a str>)
    ensures
        r is Some == prefix@.is_prefix_of(s@),
        r matches Some(t) ==> t@ == s@.skip(prefix@.len() as int),
{
    let n: usize = prefix.unicode_len();
    let total: usize = s.unicode_len();
    if total < n {
        return None;
    }
    let head = s.substring_char(0, n);
    if same(head, prefix) {
        let tail = s.substring_char(n, total);
        assert(tail@ =~= s@.skip(n as int));
        Some(tail)
    } else {
        None
    }
}

/// The part of `s` ahead of the first `part`; all of it where there is none.
pub open spec fn before_of(s: Seq<char>, part: Seq<char>) -> Seq<char> {
    match position(s, part) {
        Some(i) => s.take(i),
        None => s,
    }
}

/// The part of `s` behind the first `part`, if there is one.
pub open spec fn after_of(s: Seq<char>, part: Seq<char>) -> Option<Seq<char>> {
    match position(s, part) {
        Some(i) => Some(s.skip(i + part.len())),
        None => None,
    }
}

/// The text ahead of the first `part`.
pub fn before<'a>(s: &'a str, part: &str) -> (r: &'a str)
    ensures
        r@ == before_of(s@, part@),
{
    match find(s, part) {
        Some(i) => {
            let r = s.substring_char(0, i);
            assert(r@ =~= s@.take(i as int));
            r
        },
        None => s,
    }
}

/// The text behind the first `part`.
pub fn after<'a>(s: &'a str, part: &str) -> (r: Option<&'a str>)
    ensures
        r is Some == after_of(s@, part@) is Some,
        r matches Some(t) ==> after_of(s@, part@) == Some(t@),
{
    match find(s, part) {
        Some(i) => {
            let n: usize = part.unicode_len();
            let total: usize = s.unicode_len();
            let r = s.substring_char(i + n, total);
            assert(r@ =~= s@.skip(i + n));
            Some(r)
        },
        None => None,
    }
}

/// What stands behind the last `mark`, if the text holds one.
pub open spec fn after_last_of(s: Seq<char>, mark: char) -> Option<Seq<char>>
    decreases s.len(),
{
    if s.len() == 0 {
        None
    } else if s.last() == mark {
        Some(Seq::<char>::empty())
    } else {
        match after_last_of(s.drop_last(), mark) {
            Some(t) => Some(t.push(s.last())),
            None => None,
        }
    }
}

/// The tail that is free of `mark` and stands behind one is what `after_last_of` gives.
proof fn lemma_after_last(s: Seq<char>, mark: char, i: int)
    requires
        0 <= i <= s.len(),
        forall|j: int| i <= j < s.len() ==> s[j] != mark,
    ensures
        i > 0 && s[i - 1] == mark ==> after_last_of(s, mark) == Some(s.skip(i)),
        i == 0 ==> after_last_of(s, mark) is None,
    decreases s.len(),
{
    if s.len() > 0 && i < s.len() {
        lemma_after_last(s.drop_last(), mark, i);
        assert(s.skip(i) =~= s.drop_last().skip(i).push(s.last()));
    } else {
        assert(s.skip(i) =~= Seq::<char>::empty());
    }
}

/// The text behind the last `mark`.
pub fn after_last(s: &str, mark: char) -> (r: Option<String>)
    ensures
        r is Some == after_last_of(s@, mark) is Some,
        r matches Some(t) ==> after_last_of(s@, mark) == Some(t@),
{
    let cs = chars(s);
    let mut i: usize = cs.len();
    while i > 0 && cs[i - 1] != mark
        invariant
            i <= cs.len(),
            cs@ == s@,
            forall|j: int| i <= j < cs.len() ==> cs@[j] != mark,
        decreases i,
    {
        i -= 1;
    }
    proof {
        lemma_after_last(s@, mark, i as int);
    }
    if i == 0 {
        None
    } else {
        let total: usize = cs.len();
        let r = s.substring_char(i, total);
        assert(r@ =~= s@.skip(i as int));
        Some(r.to_owned())
    }
}

/// The characters with the Unicode property White_Space.
pub open spec fn is_white(c: char) -> bool {
    let n = c as u32;
    ||| 9 <= n <= 13
    ||| n == 0x20
    ||| n == 0x85
    ||| n == 0xa0
    ||| n == 0x1680
    ||| 0x2000 <= n <= 0x200a
    ||| n == 0x2028
    ||| n == 0x2029
    ||| n == 0x202f
    ||| n == 0x205f
    ||| n == 0x3000
}

/// Whether the character counts as white space.
pub fn white(c: char) -> (r: bool)
    ensures
        r == is_white(c),
{
    let n: u32 = c as u32;
    (9 <= n && n <= 13) || n == 0x20 || n == 0x85 || n == 0xa0 || n == 0x1680 || (0x2000 <= n && n
        <= 0x200a) || n == 0x2028 || n == 0x2029 || n == 0x202f || n == 0x205f || n == 0x3000
}

/// The text without the white space it starts with.
pub open spec fn trim_start_of(s: Seq<char>) -> Seq<char>
    decreases s.len(),
{
    if s.len() > 0 && is_white(s[0]) {
        trim_start_of(s.drop_first())
    } else {
        s
    }
}

/// The text without the white space it ends with.
pub open spec fn trim_end_of(s: Seq<char>) -> Seq<char>
    decreases s.len(),
{
    if s.len() > 0 && is_white(s.last()) {
        trim_end_of(s.drop_last())
    } else {
        s
    }
}

/// The text without the white space at its two ends.
pub open spec fn trim_of(s: Seq<char>) -> Seq<char> {
    trim_end_of(trim_start_of(s))
}

/// What is trimmed off the start is the white space there.
pub proof fn lemma_trim_start(s: Seq<char>, i: int)
    requires
        0 <= i <= s.len(),
        forall|j: int| 0 <= j < i ==> is_white(#[trigger] s[j]),
        i < s.len() ==> !is_white(s[i]),
    ensures
        trim_start_of(s) == s.skip(i),
    decreases s.len(),
{
    if i > 0 {
        assert forall|j: int| 0 <= j < i - 1 implies is_white(#[trigger] s.drop_first()[j]) by {
            assert(s.drop_first()[j] == s[j + 1]);
        }
        lemma_trim_start(s.drop_first(), i - 1);
        assert(s.drop_first().skip(i - 1) =~= s.skip(i));
    } else {
        assert(s.skip(0) =~= s);
    }
}

proof fn lemma_trim_end(s: Seq<char>, i: int)
    requires
        0 <= i <= s.len(),
        forall|j: int| i <= j < s.len() ==> is_white(#[trigger] s[j]),
        i > 0 ==> !is_white(s[i - 1]),
    ensures
        trim_end_of(s) == s.take(i),
    decreases s.len(),
{
    if i < s.len() {
        lemma_trim_end(s.drop_last(), i);
        assert(s.drop_last().take(i) =~= s.take(i));
    } else {
        assert(s.take(i) =~= s);
    }
}

/// The text from its first character that is no white space on.
pub fn trim_start(s: &str) -> (r: &str)
    ensures
        r@ == trim_start_of(s@),
{
    let cs = chars(s);
    let mut i: usize = 0;
    while i < cs.len() && white(cs[i])
        invariant
            i <= cs.len(),
            cs@ == s@,
            forall|j: int| 0 <= j < i ==> is_white(#[trigger] cs@[j]),
        decreases cs.len() - i,
    {
        i += 1;
    }
    proof {
        lemma_trim_start(s@, i as int);
    }
    let total: usize = cs.len();
    let r = s.substring_char(i, total);
    assert(r@ =~= s@.skip(i as int));
    r
}

/// The text without the white space at its two ends.
pub fn trim(s: &str) -> (r: &str)
    ensures
        r@ == trim_of(s@),
{
    let t = trim_start(s);
    let cs = chars(t);
    let mut i: usize = cs.len();
    while i > 0 && white(cs[i - 1])
        invariant
            i <= cs.len(),
            cs@ == t@,
            forall|j: int| i <= j < cs.len() ==> is_white(#[trigger] cs@[j]),
        decreases i,
    {
        i -= 1;
    }
    proof {
        lemma_trim_end(t@, i as int);
    }
    let r = t.substring_char(0, i);
    assert(r@ =~= t@.take(i as int));
    r
}

/// The pieces of a text between the marks it holds: one more piece than marks.
pub open spec fn split_of(s: Seq<char>, mark: char) -> Seq<Seq<char>>
    decreases s.len(),
{
    if s.len() == 0 {
        seq![Seq::<char>::empty()]
    } else {
        let done = split_of(s.drop_last(), mark);
        if s.last() == mark {
            done.push(Seq::<char>::empty())
        } else {
            done.drop_last().push(done.last().push(s.last()))
        }
    }
}

/// There is always a piece.
pub proof fn lemma_split_len(s: Seq<char>, mark: char)
    ensures
        split_of(s, mark).len() > 0,
    decreases s.len(),
{
    if s.len() > 0 {
        lemma_split_len(s.drop_last(), mark);
    }
}

/// The views of a list of texts.
pub open spec fn texts(v: Seq<String>) -> Seq<Seq<char>> {
    v.map_values(|t: String| t@)
}

/// The pieces of a text between its marks.
pub fn split(s: &str, mark: char) -> (r: Vec<String>)
    ensures
        texts(r@) == split_of(s@, mark),
{
    let cs = chars(s);
    let mut out: Vec<String> = Vec::new();
    let mut piece = String::new();
    let mut i: usize = 0;
    while i < cs.len()
        invariant
            i <= cs.len(),
            texts(out@).push(piece@) == split_of(cs@.take(i as int), mark),
        decreases cs.len() - i,
    {
        let c: char = cs[i];
        let ghost prev = cs@.take(i as int);
        let ghost next = cs@.take(i + 1);
        let ghost done = texts(out@).push(piece@);
        assert(next.drop_last() =~= prev);
        assert(next.last() == c);
        assert(done.drop_last() =~= texts(out@));
        if c == mark {
            out.push(piece);
            piece = String::new();
            assert(texts(out@) =~= done);
        } else {
            piece.push(c);
        }
        i += 1;
    }
    assert(cs@.take(cs@.len() as int) =~= cs@);
    let ghost done = texts(out@).push(piece@);
    out.push(piece);
    assert(texts(out@) =~= done);
    out
}

/// All the pieces of a list, one after the other.
pub open spec fn joined(pieces: Seq<Seq<char>>) -> Seq<char>
    decreases pieces.len(),
{
    if pieces.len() == 0 {
        Seq::<char>::empty()
    } else {
        joined(pieces.drop_last()) + pieces.last()
    }
}

/// Joining two rows of pieces joins their texts.
pub proof fn lemma_joined_concat(a: Seq<Seq<char>>, b: Seq<Seq<char>>)
    ensures
        joined(a + b) == joined(a) + joined(b),
    decreases b.len(),
{
    if b.len() == 0 {
        assert(a + b =~= a);
        assert(joined(a + b) =~= joined(a) + joined(b));
    } else {
        lemma_joined_concat(a, b.drop_last());
        assert((a + b).drop_last() =~= a + b.drop_last());
        assert(joined(a + b) =~= joined(a) + joined(b));
    }
}

/// Pieces that are all empty join to nothing.
pub proof fn lemma_joined_empty(a: Seq<Seq<char>>)
    requires
        forall|i: int| 0 <= i < a.len() ==> (#[trigger] a[i]).len() == 0,
    ensures
        joined(a) == Seq::<char>::empty(),
    decreases a.len(),
{
    if a.len() > 0 {
        assert(a.last() == a[a.len() - 1]);
        lemma_joined_empty(a.drop_last());
        assert(joined(a) =~= Seq::<char>::empty());
    }
}

/// One text out of all the pieces.
pub fn join(pieces: &[String]) -> (r: String)
    ensures
        r@ == joined(texts(pieces@)),
{
    let mut out = String::new();
    let mut i: usize = 0;
    assert(texts(pieces@).take(0) =~= Seq::<Seq<char>>::empty());
    while i < pieces.len()
        invariant
            i <= pieces.len(),
            out@ == joined(texts(pieces@).take(i as int)),
        decreases pieces.len() - i,
    {
        out.append(pieces[i].as_str());
        assert(texts(pieces@).take(i + 1).drop_last() =~= texts(pieces@).take(i as int));
        i += 1;
    }
    assert(texts(pieces@).take(pieces@.len() as int) =~= texts(pieces@));
    out
}

/// A copy of a list of texts.
pub fn copy_texts(v: &Vec<String>) -> (r: Vec<String>)
    ensures
        texts(r@) == texts(v@),
{
    let mut out: Vec<String> = Vec::new();
    let mut i: usize = 0;
    while i < v.len()
        invariant
            i <= v.len(),
            out.len() == i,
            forall|j: int| 0 <= j < i ==> (#[trigger] out@[j])@ == v@[j]@,
        decreases v.len() - i,
    {
        out.push(v[i].clone());
        i += 1;
    }
    assert(texts(out@) =~= texts(v@));
    out
}

/// The lower-case form of an ASCII letter; any other character as it is.
pub open spec fn ascii_lower(c: char) -> char {
    if 'A' <= c <= 'Z' {
        ((c as u32) + 32) as char
    } else {
        c
    }
}

/// The two texts differ at most in the case of ASCII letters.
pub open spec fn same_ignoring_case(a: Seq<char>, b: Seq<char>) -> bool {
    &&& a.len() == b.len()
    &&& forall|i: int| 0 <= i < a.len() ==> ascii_lower(#[trigger] a[i]) == ascii_lower(b[i])
}

/// The lower-case form of one character, as far as ASCII goes, by its number.
fn lower_code(c: char) -> (r: u32)
    ensures
        r == ascii_lower(c) as u32,
{
    let n: u32 = c as u32;
    if 65 <= n && n <= 90 {
        n + 32
    } else {
        n
    }
}

/// Whether the two texts differ at most in the case of ASCII letters.
pub fn eq_ignoring_case(a: &str, b: &str) -> (r: bool)
    ensures
        r == same_ignoring_case(a@, b@),
{
    let x = chars(a);
    let y = chars(b);
    if x.len() != y.len() {
        return false;
    }
    let mut i: usize = 0;
    while i < x.len()
        invariant
            i <= x.len(),
            x.len() == y.len(),
            x@ == a@,
            y@ == b@,
            forall|j: int| 0 <= j < i ==> ascii_lower(#[trigger] x@[j]) == ascii_lower(y@[j]),
        decreases x.len() - i,
    {
        if lower_code(x[i]) != lower_code(y[i]) {
            assert(ascii_lower(a@[i as int]) != ascii_lower(b@[i as int]));
            return false;
        }
        i += 1;
    }
    true
}

/// Character by character, `a` comes ahead of `b`.
pub open spec fn precedes(a: Seq<char>, b: Seq<char>) -> bool
    decreases a.len(),
{
    if b.len() == 0 {
        false
    } else if a.len() == 0 {
        true
    } else if a[0] != b[0] {
        a[0] < b[0]
    } else {
        precedes(a.drop_first(), b.drop_first())
    }
}

/// No text comes ahead of itself.
pub proof fn lemma_precedes_irreflexive(a: Seq<char>)
    ensures
        !precedes(a, a),
    decreases a.len(),
{
    if a.len() > 0 {
        lemma_precedes_irreflexive(a.drop_first());
    }
}

/// The order of texts is transitive.
pub proof fn lemma_precedes_transitive(a: Seq<char>, b: Seq<char>, c: Seq<char>)
    requires
        precedes(a, b),
        precedes(b, c),
    ensures
        precedes(a, c),
    decreases a.len(),
{
    if a.len() > 0 && a[0] == b[0] && b[0] == c[0] {
        lemma_precedes_transitive(a.drop_first(), b.drop_first(), c.drop_first());
    }
}

/// Of two different texts, one comes ahead of the other.
pub proof fn lemma_precedes_total(a: Seq<char>, b: Seq<char>)
    ensures
        a == b || precedes(a, b) || precedes(b, a),
    decreases a.len(),
{
    if a.len() > 0 && b.len() > 0 && a[0] == b[0] {
        lemma_precedes_total(a.drop_first(), b.drop_first());
        if a.drop_first() == b.drop_first() {
            assert(a =~= seq![a[0]] + a.drop_first());
            assert(b =~= seq![b[0]] + b.drop_first());
        }
    } else if a.len() == 0 && b.len() == 0 {
        assert(a =~= b);
    }
}

/// Whether `a` comes ahead of `b`.
pub fn comes_before(a: &str, b: &str) -> (r: bool)
    ensures
        r == precedes(a@, b@),
{
    let x = chars(a);
    let y = chars(b);
    let mut i: usize = 0;
    assert(x@.skip(0) =~= a@);
    assert(y@.skip(0) =~= b@);
    while i < x.len() && i < y.len()
        invariant
            i <= x.len(),
            i <= y.len(),
            precedes(a@, b@) == precedes(x@.skip(i as int), y@.skip(i as int)),
        decreases x.len() - i,
    {
        let p: char = x[i];
        let q: char = y[i];
        assert(x@.skip(i as int)[0] == x@[i as int]);
        assert(y@.skip(i as int)[0] == y@[i as int]);
        if p != q {
            return p < q;
        }
        assert(x@.skip(i as int).drop_first() =~= x@.skip(i + 1));
        assert(y@.skip(i as int).drop_first() =~= y@.skip(i + 1));
        i += 1;
    }
    i < y.len()
}

/// The digit for a value below ten.
pub open spec fn digit(d: nat) -> char {
    (48 + d) as char
}

/// A count in decimal notation, without leading zeros.
pub open spec fn decimal(n: nat) -> Seq<char>
    decreases n,
{
    if n < 10 {
        seq![digit(n)]
    } else {
        decimal(n / 10).push(digit(n % 10))
    }
}

/// The decimal notation of a count.
pub fn number_text(n: u64) -> (r: String)
    ensures
        r@ == decimal(n as nat),
    decreases n,
{
    let d: u8 = (n % 10) as u8;
    let c: char = (48u8 + d) as char;
    let mut out = if n < 10 {
        String::new()
    } else {
        number_text(n / 10)
    };
    out.push(c);
    assert(out@ =~= decimal(n as nat));
    out
}

/// The character is a decimal digit.
pub open spec fn is_digit(c: char) -> bool {
    '0' <= c <= '9'
}

/// The value of a row of decimal digits.
pub open spec fn digits_value(s: Seq<char>) -> nat
    decreases s.len(),
{
    if s.len() == 0 {
        0
    } else {
        digits_value(s.drop_last()) * 10 + (s.last() as int - 48) as nat
    }
}

/// What stands behind an optional plus sign.
pub open spec fn unsigned_part(s: Seq<char>) -> Seq<char> {
    if s.len() > 0 && s[0] == '+' {
        s.drop_first()
    } else {
        s
    }
}

/// Every character is a digit.
pub open spec fn all_digits(d: Seq<char>) -> bool {
    forall|i: int| 0 <= i < d.len() ==> is_digit(#[trigger] d[i])
}

/// The count that a text spells: an optional plus sign, then one digit or more,
/// and a value of at most `max`.
pub open spec fn count_of(s: Seq<char>, max: u64) -> Option<u64> {
    let d = unsigned_part(s);
    if d.len() > 0 && all_digits(d) && digits_value(d) <= max {
        Some(digits_value(d) as u64)
    } else {
        None
    }
}

proof fn lemma_digits_grow(s: Seq<char>, i: int)
    requires
        0 <= i <= s.len(),
    ensures
        digits_value(s) >= digits_value(s.take(i)),
    decreases s.len(),
{
    if i < s.len() {
        lemma_digits_grow(s.drop_last(), i);
        assert(s.drop_last().take(i) =~= s.take(i));
    } else {
        assert(s.take(i) =~= s);
    }
}

/// Reads a count of at most `max`.
pub fn parse_count(s: &str, max: u64) -> (r: Option<u64>)
    ensures
        r == count_of(s@, max),
{
    let cs = chars(s);
    let start: usize = if cs.len() > 0 && cs[0] == '+' {
        1
    } else {
        0
    };
    let ghost d = s@.skip(start as int);
    proof {
        if start == 1 {
            assert(d =~= s@.drop_first());
        } else {
            assert(d =~= s@);
        }
    }
    if cs.len() == start {
        return None;
    }
    let mut value: u64 = 0;
    let mut i: usize = start;
    assert(d.take(0) =~= Seq::<char>::empty());
    while i < cs.len()
        invariant
            start <= i <= cs.len(),
            cs@ == s@,
            d == s@.skip(start as int),
            d == unsigned_part(s@),
            value == digits_value(d.take(i - start)),
            value <= max,
            forall|j: int| 0 <= j < i - start ==> is_digit(#[trigger] d[j]),
        decreases cs.len() - i,
    {
        let c: char = cs[i];
        assert(d[i - start] == cs@[i as int]);
        if c < '0' || c > '9' {
            assert(!is_digit(d[i - start]));
            return None;
        }
        let n: u32 = c as u32;
        let next: u128 = (value as u128) * 10 + ((n - 48) as u128);
        proof {
            let t = d.take(i + 1 - start);
            assert(t.drop_last() =~= d.take(i - start));
            assert(next == digits_value(t));
            lemma_digits_grow(d, i + 1 - start);
        }
        if next > max as u128 {
            return None;
        }
        value = next as u64;
        i += 1;
    }
    assert(d.take(d.len() as int) =~= d);
    Some(value)
}

/// All characters are ASCII.
pub open spec fn is_ascii_text(s: Seq<char>) -> bool {
    forall|i: int| 0 <= i < s.len() ==> (#[trigger] s[i]) as u32 <= 127
}

/// The text with each ASCII letter in lower case.
pub open spec fn ascii_lowercase(s: Seq<char>) -> Seq<char> {
    s.map_values(|c: char| ascii_lower(c))
}

/// The lower case of a text by the rules of Unicode.
pub uninterp spec fn unicode_lowercase(s: Seq<char>) -> Seq<char>;

/// The text in lower case.
pub open spec fn lowercase(s: Seq<char>) -> Seq<char> {
    if is_ascii_text(s) {
        ascii_lowercase(s)
    } else {
        unicode_lowercase(s)
    }
}

/// `str::to_lowercase`: the lower case of a text by the rules of Unicode, a function of the text
/// alone. In a text of ASCII characters the letters from `A` to `Z` become those from `a` to `z`
/// and nothing else changes. Which characters it gives for any other text is left unsaid.
#[verifier::external_body]
pub(crate) fn to_lowercase(s: &str) -> (r: String)
    ensures
        is_ascii_text(s@) ==> r@ == ascii_lowercase(s@),
        !is_ascii_text(s@) ==> r@ == unicode_lowercase(s@),
{
    s.to_lowercase()
}

/// `part` stands somewhere in `whole`, but for the case of ASCII letters.
pub open spec fn occurs_ignoring_case(whole: Seq<char>, part: Seq<char>) -> bool {
    exists|i: int|
        0 <= i && i + part.len() <= whole.len() && #[trigger] same_ignoring_case(
            whole.subrange(i, i + part.len()),
            part,
        )
}

/// ASCII texts have the same lower case exactly when they differ in nothing but case; and a text
/// that differs from an ASCII text in nothing but case is ASCII too.
pub proof fn law_lower_case_ignores_case(a: Seq<char>, b: Seq<char>)
    requires
        is_ascii_text(a),
    ensures
        same_ignoring_case(a, b) ==> is_ascii_text(b),
        is_ascii_text(b) ==> (lowercase(a) == lowercase(b) <==> same_ignoring_case(a, b)),
{
    if same_ignoring_case(a, b) {
        assert forall|i: int| 0 <= i < b.len() implies (#[trigger] b[i]) as u32 <= 127 by {
            assert(ascii_lower(a[i]) == ascii_lower(b[i]));
        }
        assert(ascii_lowercase(a) =~= ascii_lowercase(b));
    } else if ascii_lowercase(a) == ascii_lowercase(b) {
        assert(ascii_lowercase(a).len() == ascii_lowercase(b).len());
        assert forall|i: int| 0 <= i < a.len() implies ascii_lower(#[trigger] a[i]) == ascii_lower(
            b[i],
        ) by {
            assert(ascii_lowercase(a)[i] == ascii_lowercase(b)[i]);
        }
    }
}

/// Among ASCII texts, searching in lower case is searching whatever the case of the letters.
pub proof fn law_searching_in_lower_case_ignores_case(whole: Seq<char>, part: Seq<char>)
    requires
        is_ascii_text(whole),
        is_ascii_text(part),
    ensures
        occurs(lowercase(whole), lowercase(part)) <==> occurs_ignoring_case(whole, part),
{
    let w = ascii_lowercase(whole);
    let p = ascii_lowercase(part);
    assert forall|i: int| 0 <= i && i + part.len() <= whole.len() implies (#[trigger] occurs_at(
        w,
        p,
        i,
    ) <==> same_ignoring_case(whole.subrange(i, i + part.len()), part)) by {
        let piece = whole.subrange(i, i + part.len());
        assert(w.subrange(i, i + part.len()) =~= ascii_lowercase(piece));
        law_lower_case_ignores_case(piece, part);
    }
    if occurs(w, p) {
        let i = choose|i: int| occurs_at(w, p, i);
        assert(same_ignoring_case(whole.subrange(i, i + part.len()), part));
    }
    if occurs_ignoring_case(whole, part) {
        let i = choose|i: int|
            0 <= i && i + part.len() <= whole.len() && #[trigger] same_ignoring_case(
                whole.subrange(i, i + part.len()),
                part,
            );
        assert(occurs_at(w, p, i));
    }
}

/// A text holds another where it is what stands ahead of it, then that other, then the rest.
pub proof fn law_a_text_holds_what_stands_in_it(
    ahead: Seq<char>,
    part: Seq<char>,
    behind: Seq<char>,
)
    ensures
        occurs(ahead + part + behind, part),
{
    let whole = ahead + part + behind;
    let i = ahead.len() as int;
    assert(whole.subrange(i, i + part.len()) =~= part);
    assert(occurs_at(whole, part, i));
}

/// A text that holds another can be taken apart around it.
pub proof fn law_what_a_text_holds_stands_in_it(whole: Seq<char>, part: Seq<char>) -> (r: (
    Seq<char>,
    Seq<char>,
))
    requires
        occurs(whole, part),
    ensures
        whole == r.0 + part + r.1,
{
    let i = choose|i: int| occurs_at(whole, part, i);
    let r = (whole.take(i), whole.skip(i + part.len()));
    assert(whole =~= whole.take(i) + whole.subrange(i, i + part.len()) + r.1);
    r
}

/// What stands ahead of a mark and behind it are what the text is made of, where the mark does
/// not come earlier.
pub proof fn law_a_text_is_parted_at_the_first_mark(
    ahead: Seq<char>,
    mark: Seq<char>,
    behind: Seq<char>,
)
    requires
        forall|i: int| i < ahead.len() ==> !occurs_at(ahead + mark + behind, mark, i),
    ensures
        before_of(ahead + mark + behind, mark) == ahead,
        after_of(ahead + mark + behind, mark) == Some(behind),
{
    let whole = ahead + mark + behind;
    let i = ahead.len() as int;
    assert(whole.subrange(i, i + mark.len()) =~= mark);
    assert(first_at(whole, mark, i));
    lemma_position_is(whole, mark, i);
    assert(whole.take(i) =~= ahead);
    assert(whole.skip(i + mark.len()) =~= behind);
}

/// A text without a mark is all ahead of it.
pub proof fn law_a_text_without_a_mark_is_whole(whole: Seq<char>, mark: Seq<char>)
    requires
        !occurs(whole, mark),
    ensures
        before_of(whole, mark) == whole,
        after_of(whole, mark) is None,
{
}

/// A text is split at each of its marks: the pieces of two texts with a mark between them are
/// those of the one, then those of the other.
pub proof fn law_a_text_is_split_at_its_marks(a: Seq<char>, mark: char, b: Seq<char>)
    ensures
        split_of(a + seq![mark] + b, mark) == split_of(a, mark) + split_of(b, mark),
        split_of(a, mark).len() > 0,
    decreases b.len(),
{
    let whole = a + seq![mark] + b;
    lemma_split_len(a, mark);
    lemma_split_len(b, mark);
    if b.len() == 0 {
        assert(whole.drop_last() =~= a);
        assert(split_of(whole, mark) =~= split_of(a, mark) + split_of(b, mark));
    } else {
        let rest = b.drop_last();
        law_a_text_is_split_at_its_marks(a, mark, rest);
        lemma_split_len(rest, mark);
        assert(whole.drop_last() =~= a + seq![mark] + rest);
        assert(whole.last() == b.last());
        let done = split_of(a, mark) + split_of(rest, mark);
        assert(done.last() == split_of(rest, mark).last());
        assert(split_of(whole, mark) =~= split_of(a, mark) + split_of(b, mark));
    }
}

/// A text without a mark is its only piece.
pub proof fn law_a_text_without_marks_is_one_piece(a: Seq<char>, mark: char)
    requires
        !a.contains(mark),
    ensures
        split_of(a, mark) == seq![a],
    decreases a.len(),
{
    if a.len() > 0 {
        let rest = a.drop_last();
        assert(a.last() == a[a.len() - 1]);
        assert forall|i: int| 0 <= i < rest.len() implies rest[i] != mark by {
            assert(rest[i] == a[i]);
        }
        law_a_text_without_marks_is_one_piece(rest, mark);
        assert(rest.push(a.last()) =~= a);
        assert(split_of(a, mark) =~= seq![a]);
    } else {
        assert(a =~= Seq::<char>::empty());
    }
}

/// Trimming takes off the white space at both ends, all of it and nothing else.
pub proof fn law_trimming_takes_off_white_space(ahead: Seq<char>, t: Seq<char>, behind: Seq<char>)
    requires
        forall|i: int| 0 <= i < ahead.len() ==> is_white(#[trigger] ahead[i]),
        forall|i: int| 0 <= i < behind.len() ==> is_white(#[trigger] behind[i]),
        t.len() > 0 ==> !is_white(t[0]) && !is_white(t.last()),
    ensures
        trim_of(ahead + t + behind) == t,
{
    let s = ahead + t + behind;
    if t.len() > 0 {
        let n = ahead.len() as int;
        assert forall|j: int| 0 <= j < n implies is_white(#[trigger] s[j]) by {
            assert(s[j] == ahead[j]);
        }
        assert(s[n] == t[0]);
        lemma_trim_start(s, n);
        let u = s.skip(n);
        assert(u =~= t + behind);
        let m = t.len() as int;
        assert forall|j: int| m <= j < u.len() implies is_white(#[trigger] u[j]) by {
            assert(u[j] == behind[j - m]);
        }
        assert(u[m - 1] == t.last());
        lemma_trim_end(u, m);
        assert(u.take(m) =~= t);
    } else {
        assert forall|j: int| 0 <= j < s.len() implies is_white(#[trigger] s[j]) by {
            if j < ahead.len() {
                assert(s[j] == ahead[j]);
            } else {
                assert(s[j] == behind[j - ahead.len()]);
            }
        }
        lemma_trim_start(s, s.len() as int);
        let u = s.skip(s.len() as int);
        assert(u =~= Seq::<char>::empty());
        assert(t =~= Seq::<char>::empty());
    }
}

/// Joined pieces are the pieces one after the other: one piece joins to itself, and two rows of
/// pieces to the texts of the one and the other.
pub proof fn law_joining_keeps_every_piece(a: Seq<Seq<char>>, piece: Seq<char>, b: Seq<Seq<char>>)
    ensures
        joined(Seq::<Seq<char>>::empty()) == Seq::<char>::empty(),
        joined(a.push(piece) + b) == joined(a) + piece + joined(b),
{
    lemma_joined_concat(a.push(piece), b);
    assert(a.push(piece).drop_last() =~= a);
}

/// A count is read as the number whose decimal digits it spells, with or without a plus sign, and
/// only where it is no larger than allowed; writing a number and reading it gives the number.
pub proof fn law_counts_are_decimal(n: nat, max: u64)
    ensures
        count_of(decimal(n), max) == (if n <= max {
            Some(n as u64)
        } else {
            None
        }),
        count_of(seq!['+'] + decimal(n), max) == count_of(decimal(n), max),
{
    lemma_decimal(n);
    let d = decimal(n);
    assert(d[0] != '+') by {
        assert(is_digit(d[0]));
    }
    assert(unsigned_part(d) == d);
    assert((seq!['+'] + d).drop_first() =~= d);
    assert(unsigned_part(seq!['+'] + d) == d);
}

/// The decimal digits of a number give its value.
proof fn lemma_decimal(n: nat)
    ensures
        decimal(n).len() > 0,
        all_digits(decimal(n)),
        digits_value(decimal(n)) == n,
    decreases n,
{
    if n < 10 {
        let d = decimal(n);
        assert(d.drop_last() =~= Seq::<char>::empty());
        assert(digits_value(d.drop_last()) == 0);
        assert(d.last() == digit(n));
    } else {
        lemma_decimal(n / 10);
        let d = decimal(n);
        assert(d.drop_last() =~= decimal(n / 10));
        assert(d.last() == digit(n % 10));
        assert forall|i: int| 0 <= i < d.len() implies is_digit(#[trigger] d[i]) by {
            if i < d.len() - 1 {
                assert(d[i] == decimal(n / 10)[i]);
            }
        }
    }
}

/// What is empty, or holds anything but digits behind a plus sign, is no count.
pub proof fn law_other_texts_are_no_counts(s: Seq<char>, max: u64, i: int)
    requires
        s.len() == 0 || (0 <= i < s.len() && !('0' <= s[i] <= '9') && !(i == 0 && s[0] == '+' && s.len()
            > 1)),
    ensures
        count_of(s, max) is None,
{
    if s.len() > 0 {
        let d = unsigned_part(s);
        if s[0] == '+' {
            if i > 0 {
                assert(d[i - 1] == s[i]);
            } else {
                assert(d.len() == 0);
            }
        } else {
            assert(d[i] == s[i]);
        }
    }
}

/// What stands behind the last mark is free of it; a text without the mark has nothing there.
pub proof fn law_the_last_mark_counts(ahead: Seq<char>, mark: char, behind: Seq<char>)
    requires
        !behind.contains(mark),
    ensures
        after_last_of(ahead + seq![mark] + behind, mark) == Some(behind),
        after_last_of(behind, mark) is None,
{
    let s = ahead + seq![mark] + behind;
    let i = ahead.len() as int + 1;
    assert forall|j: int| i <= j < s.len() implies s[j] != mark by {
        assert(s[j] == behind[j - i]);
    }
    lemma_after_last(s, mark, i);
    assert(s.skip(i) =~= behind);
    lemma_after_last(behind, mark, 0);
}

/// Texts are ordered by the first character in which they differ, and a text comes ahead of any
/// that goes on where it ends.
pub proof fn law_texts_are_ordered_by_their_characters(
    shared: Seq<char>,
    low: char,
    high: char,
    a: Seq<char>,
    b: Seq<char>,
)
    requires
        low < high,
    ensures
        precedes(shared + seq![low] + a, shared + seq![high] + b),
        !precedes(shared + seq![high] + b, shared + seq![low] + a),
        precedes(shared, shared + seq![high] + b),
        !precedes(shared + seq![high] + b, shared),
    decreases shared.len(),
{
    let x = shared + seq![low] + a;
    let y = shared + seq![high] + b;
    if shared.len() == 0 {
        assert(x[0] == low && y[0] == high);
    } else {
        let rest = shared.drop_first();
        law_texts_are_ordered_by_their_characters(rest, low, high, a, b);
        assert(x.drop_first() =~= rest + seq![low] + a);
        assert(y.drop_first() =~= rest + seq![high] + b);
        assert(x[0] == shared[0] && y[0] == shared[0]);
    }
}

/// Spaces, tabs and line breaks are white space, and no visible ASCII character is.
pub proof fn law_white_space_is_invisible(c: char)
    ensures
        c == ' ' || c == '\t' || c == '\n' || c == '\r' ==> is_white(c),
        '!' <= c <= '~' ==> !is_white(c),
{
}

/// Lower case moves the ASCII capitals to the small letters at the same place of the alphabet, and
/// nothing else; so two texts that differ in that alone are the same but for case, and no others.
pub proof fn law_case_is_a_matter_of_letters(c: char)
    ensures
        'A' <= c <= 'Z' ==> ascii_lower(c) as int == c as int + 32 && 'a' <= ascii_lower(c) <= 'z',
        !('A' <= c <= 'Z') ==> ascii_lower(c) == c,
        ascii_lower(ascii_lower(c)) == ascii_lower(c),
{
}

} // verus!
