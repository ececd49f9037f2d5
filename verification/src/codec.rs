//! The boundary to the JSON library: reading text into values and writing values
//! as text.

use vstd::prelude::*;

use crate::json::{self, Json, Tree};
use crate::text::same;

verus! {

/// A number as the JSON library holds it.
#[verifier::external_type_specification]
#[verifier::external_body]
pub struct ExNumber(serde_json::Number);

/// A JSON value as the JSON library holds it.
#[verifier::external_type_specification]
#[verifier::external_body]
pub struct ExValue(serde_json::Value);

/// What a value of the JSON library holds.
pub uninterp spec fn value_tree(v: serde_json::Value) -> Tree;

/// The unsigned integer that a number is, if it is one.
pub uninterp spec fn number_u64(n: serde_json::Number) -> Option<u64>;

/// The number that an unsigned integer is.
pub uninterp spec fn u64_number(u: u64) -> serde_json::Number;

/// `Number::as_u64`: the integer between zero and `u64::MAX` that the number is, if it is one; the
/// number is then the one that `Number::from` gives for that integer.
#[verifier::external_body]
pub(crate) fn number_as_u64(n: &serde_json::Number) -> (r: Option<u64>)
    ensures
        r == number_u64(*n),
        r matches Some(u) ==> *n == u64_number(u),
{
    n.as_u64()
}

/// `Number::from` on an unsigned integer: the number that it is, which `as_u64` reads back.
#[verifier::external_body]
pub(crate) fn number_from_u64(u: u64) -> (r: serde_json::Number)
    ensures
        r == u64_number(u),
        number_u64(r) == Some(u),
{
    serde_json::Number::from(u)
}

/// `Number::clone`: the same number.
#[verifier::external_body]
pub(crate) fn copy_number(n: &serde_json::Number) -> (r: serde_json::Number)
    ensures
        r == *n,
{
    n.clone()
}

/// One level of a value of the JSON library.
pub enum Shape {
    Null,
    Bool(bool),
    Num(serde_json::Number),
    Str(String),
    Arr(Vec<serde_json::Value>),
    Obj(Vec<(String, serde_json::Value)>),
}

/// The map that a list of members stands for.
pub open spec fn members(m: Seq<(String, serde_json::Value)>) -> Map<Seq<char>, Tree>
    decreases m.len(),
{
    if m.len() == 0 {
        Map::empty()
    } else {
        members(m.drop_last()).insert(m.last().0@, value_tree(m.last().1))
    }
}

/// No two members bear the same name.
pub open spec fn distinct(m: Seq<(String, serde_json::Value)>) -> bool {
    forall|i: int, j: int|
        0 <= i < j < m.len() ==> (#[trigger] m[i]).0@ != (#[trigger] m[j]).0@
}

/// What one level holds.
pub open spec fn shape_tree(s: Shape) -> Tree {
    match s {
        Shape::Null => Tree::Null,
        Shape::Bool(b) => Tree::Bool(b),
        Shape::Num(n) => Tree::Num(n),
        Shape::Str(t) => Tree::Str(t@),
        Shape::Arr(a) => Tree::Arr(a@.map_values(|v: serde_json::Value| value_tree(v))),
        Shape::Obj(m) => Tree::Obj(members(m@)),
    }
}

/// The variants of `serde_json::Value`, each with what it holds; the members of a `Map`
/// come out once each.
#[verifier::external_body]
pub(crate) fn open_value(v: serde_json::Value) -> (r: Shape)
    ensures
        shape_tree(r) == value_tree(v),
        r matches Shape::Obj(m) ==> distinct(m@),
{
    match v {
        serde_json::Value::Null => Shape::Null,
        serde_json::Value::Bool(b) => Shape::Bool(b),
        serde_json::Value::Number(n) => Shape::Num(n),
        serde_json::Value::String(s) => Shape::Str(s),
        serde_json::Value::Array(a) => Shape::Arr(a),
        serde_json::Value::Object(m) => Shape::Obj(m.into_iter().collect()),
    }
}

/// The variants of `serde_json::Value`, built from what each holds; a `Map` collected from
/// members of different names holds each of them. Which of two members of one name it would keep
/// is left unsaid, and no list with such members is handed over.
#[verifier::external_body]
pub(crate) fn close_value(s: Shape) -> (r: serde_json::Value)
    requires
        s matches Shape::Obj(m) ==> distinct(m@),
    ensures
        value_tree(r) == shape_tree(s),
{
    match s {
        Shape::Null => serde_json::Value::Null,
        Shape::Bool(b) => serde_json::Value::Bool(b),
        Shape::Num(n) => serde_json::Value::Number(n),
        Shape::Str(t) => serde_json::Value::String(t),
        Shape::Arr(a) => serde_json::Value::Array(a),
        Shape::Obj(m) => serde_json::Value::Object(m.into_iter().collect()),
    }
}

/// Distinct names stand each for the value beside it.
proof fn lemma_members(m: Seq<(String, serde_json::Value)>)
    requires
        distinct(m),
    ensures
        members(m).dom().finite(),
        forall|k: Seq<char>| #[trigger]
            members(m).dom().contains(k) ==> exists|i: int|
                0 <= i < m.len() && (#[trigger] m[i]).0@ == k,
        forall|i: int|
            0 <= i < m.len() ==> {
                &&& members(m).dom().contains((#[trigger] m[i]).0@)
                &&& members(m)[m[i].0@] == value_tree(m[i].1)
            },
    decreases m.len(),
{
    if m.len() > 0 {
        lemma_members(m.drop_last());
        assert forall|i: int| 0 <= i < m.len() implies {
            &&& members(m).dom().contains((#[trigger] m[i]).0@)
            &&& members(m)[m[i].0@] == value_tree(m[i].1)
        } by {
            if i < m.len() - 1 {
                assert(m.drop_last()[i] == m[i]);
                assert(m[i].0@ != m[m.len() - 1].0@);
            }
        }
        assert forall|k: Seq<char>| #[trigger] members(m).dom().contains(k) implies exists|i: int|
            0 <= i < m.len() && (#[trigger] m[i]).0@ == k by {
            if m.last().0@ == k {
                assert(m[m.len() - 1].0@ == k);
            } else {
                let rest = m.drop_last();
                assert(members(rest).dom().contains(k));
                let i = choose|i: int| 0 <= i < rest.len() && (#[trigger] rest[i]).0@ == k;
                assert(m[i].0@ == k);
            }
        }
    }
}

/// Whether no later member bears the name of this one.
fn stands_last(m: &Vec<(String, Json)>, i: usize) -> (r: bool)
    requires
        i < m.len(),
    ensures
        r == json::is_last(m@, i as int),
{
    let mut k: usize = i + 1;
    while k < m.len()
        invariant
            i < k <= m.len(),
            forall|j: int| i < j < k ==> (#[trigger] m@[j]).0@ != m@[i as int].0@,
        decreases m.len() - k,
    {
        if same(m[k].0.as_str(), m[i].0.as_str()) {
            assert(m@[k as int].0@ == m@[i as int].0@);
            return false;
        }
        k += 1;
    }
    true
}

/// Members of different names that are the last of their names, all of them, stand for the same
/// map.
proof fn lemma_last_members(
    m: Seq<(String, Json)>,
    out: Seq<(String, serde_json::Value)>,
    from: Seq<int>,
)
    requires
        distinct(out),
        out.len() == from.len(),
        forall|a: int| 0 <= a < from.len() ==> stems(m, #[trigger] out[a], from[a]),
        forall|k: int|
            0 <= k < m.len() && #[trigger] json::is_last(m, k) ==> from.contains(k),
    ensures
        members(out) == json::fields(m),
{
    lemma_members(out);
    assert forall|key: Seq<char>| #[trigger]
        members(out).dom().contains(key) implies json::fields(m).dom().contains(key)
        && members(out)[key] == json::fields(m)[key] by {
        let a = choose|a: int| 0 <= a < out.len() && (#[trigger] out[a]).0@ == key;
        assert(stems(m, out[a], from[a]));
        json::lemma_fields_last(m, from[a]);
    }
    assert forall|key: Seq<char>| #[trigger]
        json::fields(m).dom().contains(key) implies members(out).dom().contains(key) by {
        let k = json::lemma_last_member(m, key);
        assert(json::is_last(m, k));
        let a = choose|a: int| 0 <= a < from.len() && from[a] == k;
        assert(stems(m, out[a], from[a]));
        assert(out[a].0@ == key);
    }
    assert(members(out) =~= json::fields(m));
}

/// The member is the one at a place, which is the last of its name.
spec fn stems(m: Seq<(String, Json)>, e: (String, serde_json::Value), k: int) -> bool {
    &&& 0 <= k < m.len()
    &&& json::is_last(m, k)
    &&& e.0@ == m[k].0@
    &&& value_tree(e.1) == json::tree(m[k].1)
}

/// The library's own value for one of the JSON library.
#[verifier::loop_isolation(false)]
pub fn from_value(v: serde_json::Value) -> (r: Json)
    ensures
        r@ == value_tree(v),
    decreases value_tree(v),
{
    let ghost whole = value_tree(v);
    match open_value(v) {
        Shape::Null => Json::Null,
        Shape::Bool(b) => Json::Bool(b),
        Shape::Num(n) => Json::Num(n),
        Shape::Str(s) => Json::Str(s),
        Shape::Arr(a) => {
            let ghost items = a@;
            let mut out: Vec<Json> = Vec::new();
            for x in it: a
                invariant
                    it.seq() == items,
                    whole == Tree::Arr(items.map_values(|v: serde_json::Value| value_tree(v))),
                    out.len() == it.index(),
                    forall|i: int| 0 <= i < it.index() ==> json::tree(#[trigger] out@[i]) == value_tree(items[i]),
            {
                assert(value_tree(x) == whole->Arr_0[it.index() as int]);
                assert(decreases_to!(whole => whole->Arr_0[it.index() as int]));
                let y = from_value(x);
                out.push(y);
            }
            proof {
                json::lemma_trees(out@);
                assert(json::trees(out@) =~= items.map_values(|v: serde_json::Value| value_tree(v)));
            }
            Json::Arr(out)
        },
        Shape::Obj(m) => {
            let ghost entries = m@;
            proof {
                lemma_members(entries);
            }
            let mut out: Vec<(String, Json)> = Vec::new();
            assert(entries.take(0) =~= Seq::empty());
            for e in it: m
                invariant
                    it.seq() == entries,
                    whole == Tree::Obj(members(entries)),
                    members(entries).dom().finite(),
                    forall|i: int|
                        0 <= i < entries.len() ==> {
                            &&& members(entries).dom().contains((#[trigger] entries[i]).0@)
                            &&& members(entries)[entries[i].0@] == value_tree(entries[i].1)
                        },
                    json::fields(out@) == members(entries.take(it.index() as int)),
            {
                let ghost i = it.index() as int;
                assert(entries[i] == e);
                assert(value_tree(e.1) == whole->Obj_0[e.0@]);
                assert(decreases_to!(whole => whole->Obj_0[e.0@]));
                let y = from_value(e.1);
                let ghost before = out@;
                out.push((e.0, y));
                proof {
                    json::lemma_fields_push(before, out@.last());
                    assert(entries.take(i + 1).drop_last() =~= entries.take(i));
                }
            }
            assert(entries.take(entries.len() as int) =~= entries);
            Json::Obj(out)
        },
    }
}

/// The JSON library's value for one of this library.
pub fn to_value(j: &Json) -> (r: serde_json::Value)
    ensures
        value_tree(r) == j@,
    decreases j,
{
    let s = match j {
        Json::Null => Shape::Null,
        Json::Bool(b) => Shape::Bool(*b),
        Json::Num(n) => Shape::Num(copy_number(n)),
        Json::Str(s) => Shape::Str(s.clone()),
        Json::Arr(a) => {
            let mut out: Vec<serde_json::Value> = Vec::new();
            let mut i: usize = 0;
            while i < a.len()
                invariant
                    i <= a.len(),
                    *j == Json::Arr(*a),
                    out.len() == i,
                    forall|k: int| 0 <= k < i ==> value_tree(#[trigger] out@[k]) == json::tree(a@[k]),
                decreases a.len() - i,
            {
                assert(decreases_to!(*j => j->Arr_0));
                assert(decreases_to!(*a => a@));
                assert(decreases_to!(a@ => a@[i as int]));
                let x = to_value(&a[i]);
                out.push(x);
                i += 1;
            }
            proof {
                json::lemma_trees(a@);
                assert(json::trees(a@) =~= out@.map_values(|v: serde_json::Value| value_tree(v)));
            }
            Shape::Arr(out)
        },
        Json::Obj(m) => {
            let mut out: Vec<(String, serde_json::Value)> = Vec::new();
            let ghost mut from: Seq<int> = Seq::empty();
            let mut i: usize = 0;
            while i < m.len()
                invariant
                    i <= m.len(),
                    *j == Json::Obj(*m),
                    out@.len() == from.len(),
                    distinct(out@),
                    forall|a: int| 0 <= a < from.len() ==> stems(m@, #[trigger] out@[a], from[a]),
                    forall|a: int| 0 <= a < from.len() ==> #[trigger] from[a] < i,
                    forall|k: int|
                        0 <= k < i && #[trigger] json::is_last(m@, k) ==> from.contains(k),
                decreases m.len() - i,
            {
                assert(decreases_to!(*j => j->Obj_0));
                assert(decreases_to!(*m => m@));
                assert(decreases_to!(m@ => m@[i as int]));
                assert(decreases_to!(m@[i as int] => m@[i as int].1));
                if stands_last(m, i) {
                    let x = to_value(&m[i].1);
                    let ghost before = out@;
                    let ghost known = from;
                    out.push((m[i].0.clone(), x));
                    proof {
                        from = from.push(i as int);
                        assert forall|a: int, b: int| 0 <= a < b < out@.len() implies (
                        #[trigger] out@[a]).0@ != (#[trigger] out@[b]).0@ by {
                            assert(out@[a] == before[a]);
                            if b < before.len() {
                                assert(out@[b] == before[b]);
                            } else {
                                assert(stems(m@, before[a], known[a]));
                                assert(m@[i as int].0@ != m@[known[a]].0@);
                            }
                        }
                        assert forall|a: int| 0 <= a < from.len() implies stems(
                            m@,
                            #[trigger] out@[a],
                            from[a],
                        ) by {
                            if a < known.len() {
                                assert(stems(m@, before[a], known[a]));
                            }
                        }
                        assert forall|k: int|
                            0 <= k < i + 1 && #[trigger] json::is_last(
                                m@,
                                k,
                            ) implies from.contains(k) by {
                            if k < i {
                                let a = choose|a: int| 0 <= a < known.len() && known[a] == k;
                                assert(from[a] == k);
                            } else {
                                assert(from[known.len() as int] == k);
                            }
                        }
                    }
                }
                i += 1;
            }
            proof {
                lemma_last_members(m@, out@, from);
            }
            Shape::Obj(out)
        },
    };
    close_value(s)
}

/// The value that a JSON text spells, or the reader's complaint about it.
pub uninterp spec fn read_text(text: Seq<char>) -> Result<Tree, Seq<char>>;

/// The value that the bytes of a JSON text spell, if they spell one.
pub uninterp spec fn read_bytes(bytes: Seq<u8>) -> Option<Tree>;

/// The compact JSON text of a value.
pub uninterp spec fn written(t: Tree) -> Seq<char>;

/// `serde_json::from_str` into a `Value`: what it reads, or what its error displays, is a
/// function of the text alone.
#[verifier::external_body]
fn value_from_str(text: &str) -> (r: Result<serde_json::Value, String>)
    ensures
        match r {
            Ok(v) => read_text(text@) == Ok::<Tree, Seq<char>>(value_tree(v)),
            Err(e) => read_text(text@) == Err::<Tree, Seq<char>>(e@),
        },
{
    serde_json::from_str(text).map_err(|e| e.to_string())
}

/// `serde_json::from_slice` into a `Value`: what it reads, if it reads anything, is a function
/// of the bytes alone; and bytes that are valid UTF-8 are read as `from_str` reads the text that
/// they encode.
#[verifier::external_body]
fn value_from_slice(bytes: &[u8]) -> (r: Option<serde_json::Value>)
    ensures
        match r {
            Some(v) => read_bytes(bytes@) == Some(value_tree(v)),
            None => read_bytes(bytes@) is None,
        },
        vstd::utf8::valid_utf8(bytes@) ==> match r {
            Some(v) => read_text(vstd::utf8::decode_utf8(bytes@)) == Ok::<Tree, Seq<char>>(
                value_tree(v),
            ),
            None => read_text(vstd::utf8::decode_utf8(bytes@)) is Err,
        },
{
    serde_json::from_slice(bytes).ok()
}

/// How deep a value may be nested that `serde_json` reads: its reader counts down from 128 and
/// stops when nothing is left.
pub const READ_DEPTH: u8 = 127;

/// `Value::to_string`: the compact text, a function of what the value holds. `from_str` reads it
/// back as the same value, where the value is not nested too deep and its numbers are unsigned
/// integers; of other numbers nothing is claimed, since the reader may round a fraction.
#[verifier::external_body]
fn value_text(v: &serde_json::Value) -> (r: String)
    ensures
        r@ == written(value_tree(*v)),
        json::lossless(value_tree(*v), READ_DEPTH as nat) ==> (read_text(r@) == Ok::<Tree, Seq<char>>(
            value_tree(*v),
        )),
{
    v.to_string()
}

/// Reads a JSON text.
pub fn parse_text(text: &str) -> (r: Result<Json, String>)
    ensures
        match r {
            Ok(j) => read_text(text@) == Ok::<Tree, Seq<char>>(j@),
            Err(e) => read_text(text@) == Err::<Tree, Seq<char>>(e@),
        },
{
    match value_from_str(text) {
        Ok(v) => Ok(from_value(v)),
        Err(e) => Err(e),
    }
}

/// Reads the bytes of a JSON text.
pub fn parse_bytes(bytes: &[u8]) -> (r: Option<Json>)
    ensures
        match r {
            Some(j) => read_bytes(bytes@) == Some(j@),
            None => read_bytes(bytes@) is None,
        },
        vstd::utf8::valid_utf8(bytes@) ==> match r {
            Some(j) => read_text(vstd::utf8::decode_utf8(bytes@)) == Ok::<Tree, Seq<char>>(j@),
            None => read_text(vstd::utf8::decode_utf8(bytes@)) is Err,
        },
{
    match value_from_slice(bytes) {
        Some(v) => Some(from_value(v)),
        None => None,
    }
}

/// Writes a value as compact JSON text, which reads back as the value.
pub fn to_text(j: &Json) -> (r: String)
    ensures
        r@ == written(j@),
        json::lossless(j@, READ_DEPTH as nat) ==> read_text(r@) == Ok::<Tree, Seq<char>>(j@),
{
    let v = to_value(j);
    value_text(&v)
}

} // verus!
