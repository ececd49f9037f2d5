//! JSON values: the executable type that the server passes around, its
//! mathematical counterpart, and what reads and builds either.

use vstd::prelude::*;

use crate::codec::{self, copy_number, number_as_u64, number_from_u64};
use crate::text::{self, same};

verus! {

/// A JSON value as mathematics: an object is a map, whatever the order of its
/// members, and a number is the number that the JSON library holds.
#[verifier::ext_equal]
pub enum Tree {
    Null,
    Bool(bool),
    Num(serde_json::Number),
    Str(Seq<char>),
    Arr(Seq<Tree>),
    Obj(Map<Seq<char>, Tree>),
}

/// A JSON value. The members of an object stand in a list; where a name occurs
/// twice, the later member counts.
pub enum Json {
    Null,
    Bool(bool),
    Num(serde_json::Number),
    Str(String),
    Arr(Vec<Json>),
    Obj(Vec<(String, Json)>),
}

/// The mathematical value of a JSON value.
pub open spec fn tree(j: Json) -> Tree
    decreases j,
{
    match j {
        Json::Null => Tree::Null,
        Json::Bool(b) => Tree::Bool(b),
        Json::Num(n) => Tree::Num(n),
        Json::Str(s) => Tree::Str(s@),
        Json::Arr(v) => Tree::Arr(trees(v@)),
        Json::Obj(m) => Tree::Obj(fields(m@)),
    }
}

/// The mathematical values of a list of JSON values.
pub open spec fn trees(v: Seq<Json>) -> Seq<Tree>
    decreases v,
{
    if v.len() == 0 {
        Seq::empty()
    } else {
        trees(v.drop_last()).push(tree(v.last()))
    }
}

/// The map that a list of members stands for.
pub open spec fn fields(m: Seq<(String, Json)>) -> Map<Seq<char>, Tree>
    decreases m,
{
    if m.len() == 0 {
        Map::empty()
    } else {
        fields(m.drop_last()).insert(m.last().0@, tree(m.last().1))
    }
}

impl View for Json {
    type V = Tree;

    open spec fn view(&self) -> Tree {
        tree(*self)
    }
}

/// The list of values holds the value of each item at its place.
pub proof fn lemma_trees(v: Seq<Json>)
    ensures
        trees(v).len() == v.len(),
        forall|i: int| 0 <= i < v.len() ==> #[trigger] trees(v)[i] == tree(v[i]),
    decreases v.len(),
{
    if v.len() > 0 {
        lemma_trees(v.drop_last());
    }
}

/// Adding an item adds its value.
pub proof fn lemma_trees_push(v: Seq<Json>, j: Json)
    ensures
        trees(v.push(j)) == trees(v).push(tree(j)),
{
    assert(v.push(j).drop_last() =~= v);
}

/// Adding a member sets its name to its value.
pub proof fn lemma_fields_push(m: Seq<(String, Json)>, e: (String, Json))
    ensures
        fields(m.push(e)) == fields(m).insert(e.0@, tree(e.1)),
{
    assert(m.push(e).drop_last() =~= m);
}

impl Tree {
    /// The member of an object by its name.
    pub open spec fn get(self, key: Seq<char>) -> Option<Tree> {
        match self {
            Tree::Obj(m) => if m.dom().contains(key) {
                Some(m[key])
            } else {
                None
            },
            _ => None,
        }
    }

    /// The text, for a string.
    pub open spec fn as_str(self) -> Option<Seq<char>> {
        match self {
            Tree::Str(s) => Some(s),
            _ => None,
        }
    }

    /// The truth value, for a boolean.
    pub open spec fn as_bool(self) -> Option<bool> {
        match self {
            Tree::Bool(b) => Some(b),
            _ => None,
        }
    }

    /// The integer, for a number that is an unsigned one.
    pub open spec fn as_u64(self) -> Option<u64> {
        match self {
            Tree::Num(n) => codec::number_u64(n),
            _ => None,
        }
    }

    /// The items, for a list.
    pub open spec fn as_list(self) -> Option<Seq<Tree>> {
        match self {
            Tree::Arr(a) => Some(a),
            _ => None,
        }
    }

    /// The text of a member, where there is one and it is a string.
    pub open spec fn str_at(self, key: Seq<char>) -> Option<Seq<char>> {
        match self.get(key) {
            Some(v) => v.as_str(),
            None => None,
        }
    }

    /// The truth value of a member, where there is one and it is a boolean.
    pub open spec fn bool_at(self, key: Seq<char>) -> Option<bool> {
        match self.get(key) {
            Some(v) => v.as_bool(),
            None => None,
        }
    }

    /// The integer of a member, where there is one and it is an unsigned number.
    pub open spec fn u64_at(self, key: Seq<char>) -> Option<u64> {
        match self.get(key) {
            Some(v) => v.as_u64(),
            None => None,
        }
    }

    /// The items of a member, where there is one and it is a list.
    pub open spec fn list_at(self, key: Seq<char>) -> Option<Seq<Tree>> {
        match self.get(key) {
            Some(v) => v.as_list(),
            None => None,
        }
    }
}

/// The value of an optional JSON value.
pub open spec fn tree_opt(j: Option<Json>) -> Option<Tree> {
    match j {
        Some(v) => Some(v@),
        None => None,
    }
}

/// The text of an optional string.
pub open spec fn text_opt(s: Option<String>) -> Option<Seq<char>> {
    match s {
        Some(t) => Some(t@),
        None => None,
    }
}

/// A whole number as a value.
pub open spec fn num(u: u64) -> Tree {
    Tree::Num(codec::u64_number(u))
}

/// The value is nested at most so deep, and each of its numbers is an unsigned integer: what
/// survives being written and read again without loss.
pub open spec fn lossless(t: Tree, depth: nat) -> bool
    decreases depth,
{
    match t {
        Tree::Num(n) => codec::number_u64(n) is Some,
        Tree::Arr(a) => depth > 0 && forall|i: int|
            0 <= i < a.len() ==> #[trigger] lossless(a[i], (depth - 1) as nat),
        Tree::Obj(m) => depth > 0 && forall|k: Seq<char>| #[trigger]
            m.dom().contains(k) ==> lossless(m[k], (depth - 1) as nat),
        _ => true,
    }
}

/// Leaving out members that do not bear the name does not change what it stands for.
proof fn lemma_fields_tail(m: Seq<(String, Json)>, i: int, key: Seq<char>)
    requires
        0 <= i <= m.len(),
        forall|j: int| i <= j < m.len() ==> (#[trigger] m[j]).0@ != key,
    ensures
        fields(m).dom().contains(key) == fields(m.take(i)).dom().contains(key),
        fields(m).dom().contains(key) ==> fields(m)[key] == fields(m.take(i))[key],
    decreases m.len(),
{
    if i < m.len() {
        assert(m.last() == m[m.len() - 1]);
        lemma_fields_tail(m.drop_last(), i, key);
        assert(m.drop_last().take(i) =~= m.take(i));
    } else {
        assert(m.take(i) =~= m);
    }
}

impl Json {
    /// A whole number.
    pub fn number(u: u64) -> (r: Json)
        ensures
            r@ == num(u),
            r@.as_u64() == Some(u),
    {
        Json::Num(number_from_u64(u))
    }

    /// A string.
    pub fn text(s: &str) -> (r: Json)
        ensures
            r@ == Tree::Str(s@),
    {
        Json::Str(s.to_owned())
    }

    /// The member of an object by its name.
    pub fn get(&self, key: &str) -> (r: Option<&Json>)
        ensures
            match r {
                Some(v) => self@.get(key@) == Some(v@),
                None => self@.get(key@) is None,
            },
    {
        match self {
            Json::Obj(m) => {
                let mut i: usize = m.len();
                while i > 0
                    invariant
                        i <= m.len(),
                        self@ == Tree::Obj(fields(m@)),
                        forall|j: int| i <= j < m.len() ==> (#[trigger] m@[j]).0@ != key@,
                    decreases i,
                {
                    if same(m[i - 1].0.as_str(), key) {
                        proof {
                            lemma_fields_tail(m@, i as int, key@);
                            assert(m@.take(i as int).last() == m@[i - 1]);
                        }
                        return Some(&m[i - 1].1);
                    }
                    i -= 1;
                }
                proof {
                    lemma_fields_tail(m@, 0, key@);
                    assert(m@.take(0) =~= Seq::empty());
                }
                None
            },
            _ => None,
        }
    }

    /// The text of a string.
    pub fn as_str(&self) -> (r: Option<&str>)
        ensures
            match r {
                Some(s) => self@.as_str() == Some(s@),
                None => self@.as_str() is None,
            },
    {
        match self {
            Json::Str(s) => Some(s.as_str()),
            _ => None,
        }
    }

    /// The truth value of a boolean.
    pub fn as_bool(&self) -> (r: Option<bool>)
        ensures
            r == self@.as_bool(),
    {
        match self {
            Json::Bool(b) => Some(*b),
            _ => None,
        }
    }

    /// The integer that a number is, where it is an unsigned one.
    pub fn as_u64(&self) -> (r: Option<u64>)
        ensures
            r == self@.as_u64(),
            r matches Some(u) ==> self@ == num(u),
    {
        match self {
            Json::Num(n) => number_as_u64(n),
            _ => None,
        }
    }

    /// The items of a list.
    pub fn as_list(&self) -> (r: Option<&Vec<Json>>)
        ensures
            match r {
                Some(v) => self@.as_list() == Some(trees(v@)),
                None => self@.as_list() is None,
            },
    {
        match self {
            Json::Arr(v) => Some(v),
            _ => None,
        }
    }

    /// The text of a member.
    pub fn str_at(&self, key: &str) -> (r: Option<&str>)
        ensures
            match r {
                Some(s) => self@.str_at(key@) == Some(s@),
                None => self@.str_at(key@) is None,
            },
    {
        match self.get(key) {
            Some(v) => v.as_str(),
            None => None,
        }
    }

    /// The truth value of a member.
    pub fn bool_at(&self, key: &str) -> (r: Option<bool>)
        ensures
            r == self@.bool_at(key@),
    {
        match self.get(key) {
            Some(v) => v.as_bool(),
            None => None,
        }
    }

    /// The integer of a member.
    pub fn u64_at(&self, key: &str) -> (r: Option<u64>)
        ensures
            r == self@.u64_at(key@),
            r matches Some(u) ==> self@.get(key@) == Some(num(u)),
    {
        match self.get(key) {
            Some(v) => v.as_u64(),
            None => None,
        }
    }

    /// The items of a member.
    pub fn list_at(&self, key: &str) -> (r: Option<&Vec<Json>>)
        ensures
            match r {
                Some(v) => self@.list_at(key@) == Some(trees(v@)),
                None => self@.list_at(key@) is None,
            },
    {
        match self.get(key) {
            Some(v) => v.as_list(),
            None => None,
        }
    }

    /// The same value once more.
    pub fn copy(&self) -> (r: Json)
        ensures
            r@ == self@,
        decreases self,
    {
        match self {
            Json::Null => Json::Null,
            Json::Bool(b) => Json::Bool(*b),
            Json::Num(n) => Json::Num(copy_number(n)),
            Json::Str(s) => Json::Str(s.clone()),
            Json::Arr(a) => {
                let mut out: Vec<Json> = Vec::new();
                let mut i: usize = 0;
                assert(a@.take(0) =~= Seq::empty());
                while i < a.len()
                    invariant
                        i <= a.len(),
                        *self == Json::Arr(*a),
                        trees(out@) == trees(a@.take(i as int)),
                    decreases a.len() - i,
                {
                    assert(decreases_to!(*self => self->Arr_0));
                    assert(decreases_to!(*a => a@));
                    assert(decreases_to!(a@ => a@[i as int]));
                    let x = a[i].copy();
                    proof {
                        lemma_trees_push(out@, x);
                        assert(a@.take(i + 1).drop_last() =~= a@.take(i as int));
                    }
                    out.push(x);
                    i += 1;
                }
                assert(a@.take(a@.len() as int) =~= a@);
                Json::Arr(out)
            },
            Json::Obj(m) => {
                let mut out: Vec<(String, Json)> = Vec::new();
                let mut i: usize = 0;
                assert(m@.take(0) =~= Seq::empty());
                while i < m.len()
                    invariant
                        i <= m.len(),
                        *self == Json::Obj(*m),
                        fields(out@) == fields(m@.take(i as int)),
                    decreases m.len() - i,
                {
                    assert(decreases_to!(*self => self->Obj_0));
                    assert(decreases_to!(*m => m@));
                    assert(decreases_to!(m@ => m@[i as int]));
                    assert(decreases_to!(m@[i as int] => m@[i as int].1));
                    let x = m[i].1.copy();
                    let e = (m[i].0.clone(), x);
                    proof {
                        lemma_fields_push(out@, e);
                        assert(m@.take(i + 1).drop_last() =~= m@.take(i as int));
                    }
                    out.push(e);
                    i += 1;
                }
                assert(m@.take(m@.len() as int) =~= m@);
                Json::Obj(out)
            },
        }
    }
}

/// No later member bears the name of this one.
pub open spec fn is_last(m: Seq<(String, Json)>, i: int) -> bool {
    forall|j: int| i < j < m.len() ==> (#[trigger] m[j]).0@ != m[i].0@
}

/// The last member of a name is what the name stands for.
pub proof fn lemma_fields_last(m: Seq<(String, Json)>, i: int)
    requires
        0 <= i < m.len(),
        is_last(m, i),
    ensures
        fields(m).dom().contains(m[i].0@),
        fields(m)[m[i].0@] == tree(m[i].1),
{
    lemma_fields_tail(m, i + 1, m[i].0@);
    assert(m.take(i + 1).last() == m[i]);
}

/// Where the last member of a name stands.
pub proof fn lemma_last_member(m: Seq<(String, Json)>, key: Seq<char>) -> (i: int)
    requires
        fields(m).dom().contains(key),
    ensures
        0 <= i < m.len(),
        m[i].0@ == key,
        is_last(m, i),
    decreases m.len(),
{
    let n = m.len() - 1;
    if m.last().0@ == key {
        n
    } else {
        let i = lemma_last_member(m.drop_last(), key);
        assert forall|j: int| i < j < m.len() implies (#[trigger] m[j]).0@ != m[i].0@ by {
            if j < n {
                assert(m.drop_last()[j] == m[j]);
            }
        }
        i
    }
}

/// The names of a list of members are those that its map knows.
pub proof fn lemma_fields_dom(m: Seq<(String, Json)>, key: Seq<char>)
    ensures
        fields(m).dom().contains(key) <==> exists|i: int|
            0 <= i < m.len() && (#[trigger] m[i]).0@ == key,
    decreases m.len(),
{
    if m.len() > 0 {
        let rest = m.drop_last();
        lemma_fields_dom(rest, key);
        if m.last().0@ == key {
            assert(m[m.len() - 1].0@ == key);
        }
        if fields(rest).dom().contains(key) {
            let i = choose|i: int| 0 <= i < rest.len() && (#[trigger] rest[i]).0@ == key;
            assert(m[i].0@ == key);
        }
        if exists|i: int| 0 <= i < m.len() && (#[trigger] m[i]).0@ == key {
            let i = choose|i: int| 0 <= i < m.len() && (#[trigger] m[i]).0@ == key;
            if i < m.len() - 1 {
                assert(rest[i].0@ == key);
            }
        }
    }
}

/// A copy of an optional value.
pub fn copy_opt(j: &Option<Json>) -> (r: Option<Json>)
    ensures
        tree_opt(r) == tree_opt(*j),
{
    match j {
        Some(v) => Some(v.copy()),
        None => None,
    }
}

/// A copy of a list of values.
pub fn copy_list(v: &Vec<Json>) -> (r: Vec<Json>)
    ensures
        trees(r@) == trees(v@),
{
    let mut out: Vec<Json> = Vec::new();
    let mut i: usize = 0;
    assert(v@.take(0) =~= Seq::empty());
    while i < v.len()
        invariant
            i <= v.len(),
            trees(out@) == trees(v@.take(i as int)),
        decreases v.len() - i,
    {
        let x = v[i].copy();
        proof {
            lemma_trees_push(out@, x);
            assert(v@.take(i + 1).drop_last() =~= v@.take(i as int));
        }
        out.push(x);
        i += 1;
    }
    assert(v@.take(v@.len() as int) =~= v@);
    out
}

/// An object that is being put together, member by member.
pub struct Members {
    entries: Vec<(String, Json)>,
}

impl View for Members {
    type V = Map<Seq<char>, Tree>;

    closed spec fn view(&self) -> Map<Seq<char>, Tree> {
        fields(self.entries@)
    }
}

impl Members {
    /// No member yet.
    pub fn new() -> (r: Members)
        ensures
            r@ == Map::<Seq<char>, Tree>::empty(),
    {
        Members { entries: Vec::new() }
    }

    /// Sets a member.
    pub fn set(&mut self, key: &str, value: Json)
        ensures
            final(self)@ == old(self)@.insert(key@, value@),
    {
        let e = (key.to_owned(), value);
        proof {
            lemma_fields_push(self.entries@, e);
        }
        self.entries.push(e);
    }

    /// Sets a member, where there is a value for it.
    pub fn set_opt(&mut self, key: &str, value: Option<Json>)
        ensures
            final(self)@ == with_opt(old(self)@, key@, tree_opt(value)),
    {
        if let Some(v) = value {
            self.set(key, v);
        }
    }

    /// Sets a member, with itself handed back.
    pub fn with(self, key: &str, value: Json) -> (r: Members)
        ensures
            r@ == self@.insert(key@, value@),
    {
        let mut m = self;
        m.set(key, value);
        m
    }

    /// The members of an object.
    pub fn of(j: Json) -> (r: Members)
        requires
            j@ is Obj,
        ensures
            Tree::Obj(r@) == j@,
    {
        match j {
            Json::Obj(m) => Members { entries: m },
            _ => Members::new(),
        }
    }

    /// Sets a member, unless it is there already.
    pub fn fill(self, key: &str, value: Json) -> (r: Members)
        ensures
            r@ == filled(self@, key@, value@),
    {
        let ghost before = self@;
        let j = self.done();
        let present = j.get(key).is_some();
        let m = Members::of(j);
        assert(m@ == before);
        if present {
            m
        } else {
            m.with(key, value)
        }
    }

    /// The object.
    pub fn done(self) -> (r: Json)
        ensures
            r@ == Tree::Obj(self@),
    {
        Json::Obj(self.entries)
    }
}

/// The members with one more, where there is a value for it.
pub open spec fn with_opt(
    m: Map<Seq<char>, Tree>,
    key: Seq<char>,
    value: Option<Tree>,
) -> Map<Seq<char>, Tree> {
    match value {
        Some(v) => m.insert(key, v),
        None => m,
    }
}

/// The members with one more, unless they have it already.
pub open spec fn filled(
    m: Map<Seq<char>, Tree>,
    key: Seq<char>,
    value: Tree,
) -> Map<Seq<char>, Tree> {
    if m.dom().contains(key) {
        m
    } else {
        m.insert(key, value)
    }
}

/// A list of one value.
pub fn list_of_one(j: Json) -> (r: Json)
    ensures
        r@ == Tree::Arr(seq![j@]),
{
    let mut v: Vec<Json> = Vec::new();
    let ghost empty = v@;
    v.push(j);
    proof {
        lemma_trees_push(empty, j);
        assert(trees(v@) =~= seq![j@]);
    }
    Json::Arr(v)
}

/// The list of strings as a value.
pub open spec fn text_list(v: Seq<Seq<char>>) -> Tree {
    Tree::Arr(v.map_values(|s: Seq<char>| Tree::Str(s)))
}

/// A list of strings as a value.
pub fn list_of_texts(v: &[String]) -> (r: Json)
    ensures
        r@ == text_list(text::texts(v@)),
{
    let mut out: Vec<Json> = Vec::new();
    let mut i: usize = 0;
    while i < v.len()
        invariant
            i <= v.len(),
            out.len() == i,
            forall|j: int| 0 <= j < i ==> tree(#[trigger] out@[j]) == Tree::Str(v@[j]@),
        decreases v.len() - i,
    {
        out.push(Json::text(v[i].as_str()));
        i += 1;
    }
    proof {
        lemma_trees(out@);
        assert(trees(out@) =~= text::texts(v@).map_values(|s: Seq<char>| Tree::Str(s)));
    }
    Json::Arr(out)
}

/// Only objects have members, each under its name; and a member is read as a text, a truth value,
/// a number or a list only where it is one.
pub proof fn law_members_are_read_by_their_kind(t: Tree, m: Map<Seq<char>, Tree>, key: Seq<char>)
    ensures
        Tree::Obj(m).get(key) == (if m.dom().contains(key) {
            Some(m[key])
        } else {
            None
        }),
        !(t is Obj) ==> t.get(key) is None,
        t.get(key) is None ==> t.str_at(key) is None && t.bool_at(key) is None && t.u64_at(
            key,
        ) is None && t.list_at(key) is None,
        t.get(key) matches Some(v) ==> {
            &&& t.str_at(key) == (match v {
                Tree::Str(s) => Some(s),
                _ => None,
            })
            &&& t.bool_at(key) == (match v {
                Tree::Bool(b) => Some(b),
                _ => None,
            })
            &&& t.list_at(key) == (match v {
                Tree::Arr(a) => Some(a),
                _ => None,
            })
            &&& t.u64_at(key) == (match v {
                Tree::Num(n) => codec::number_u64(n),
                _ => None,
            })
        },
{
}

} // verus!
