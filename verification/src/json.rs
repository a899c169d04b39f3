//! JSON values: the data that the protocol handlers and the script runtime
//! exchange with their clients.
use vstd::prelude::*;

use crate::text;

verus! {

/// A JSON number. An integer is held as such; any other number is held by the
/// bits of its IEEE 754 double precision representation.
#[derive(Debug, Clone, Copy, PartialEq, Eq, Structural)]
pub enum Number {
    /// An integer that is not negative.
    PosInt(u64),
    /// A negative integer.
    NegInt(i64),
    /// Any other number, by the bits of a double.
    Float(u64),
}

/// A JSON value.
#[derive(Debug, PartialEq, Eq)]
pub enum Json {
    /// `null`
    Null,
    /// `true` or `false`
    Bool(bool),
    /// A number.
    Number(Number),
    /// A string.
    Text(String),
    /// An array.
    Array(Vec<Json>),
    /// An object: its members, whose names differ.
    Object(Vec<Member>),
}

/// A member of a JSON object.
#[derive(Debug, PartialEq, Eq)]
pub struct Member {
    /// The member's name.
    pub name: String,
    /// The member's value.
    pub value: Json,
}

/// What a JSON value is.
pub enum JsonView {
    /// `null`
    Null,
    /// `true` or `false`
    Bool(bool),
    /// A number.
    Number(Number),
    /// A string.
    Text(Seq<char>),
    /// An array.
    Array(Seq<JsonView>),
    /// An object.
    Object(Seq<(Seq<char>, JsonView)>),
}

/// What a JSON value is.
pub open spec fn json_view(j: Json) -> JsonView
    decreases j,
{
    match j {
        Json::Null => JsonView::Null,
        Json::Bool(b) => JsonView::Bool(b),
        Json::Number(n) => JsonView::Number(n),
        Json::Text(t) => JsonView::Text(t@),
        Json::Array(v) => JsonView::Array(
            Seq::new(
                v@.len(),
                |i: int|
                    if 0 <= i < v@.len() {
                        json_view(v@[i])
                    } else {
                        JsonView::Null
                    },
            ),
        ),
        Json::Object(v) => JsonView::Object(
            Seq::new(
                v@.len(),
                |i: int|
                    if 0 <= i < v@.len() {
                        (v@[i].name@, json_view(v@[i].value))
                    } else {
                        (Seq::empty(), JsonView::Null)
                    },
            ),
        ),
    }
}

impl View for Json {
    type V = JsonView;

    open spec fn view(&self) -> JsonView {
        json_view(*self)
    }
}

/// The views of the items of an array.
pub open spec fn item_views(v: Seq<Json>) -> Seq<JsonView> {
    v.map_values(|j: Json| j@)
}

/// The names of members, with the views of their values.
pub open spec fn member_views(v: Seq<Member>) -> Seq<(Seq<char>, JsonView)> {
    v.map_values(|m: Member| (m.name@, m.value@))
}

/// The value of the first of `ms`, from place `i` on, that is named `key`.
pub open spec fn lookup(ms: Seq<(Seq<char>, JsonView)>, key: Seq<char>, i: int) -> Option<JsonView>
    decreases ms.len() - i,
{
    if i < 0 || i >= ms.len() {
        None
    } else if ms[i].0 == key {
        Some(ms[i].1)
    } else {
        lookup(ms, key, i + 1)
    }
}

impl JsonView {
    /// The member `key` of an object; nothing of any other value.
    pub open spec fn field(self, key: Seq<char>) -> Option<JsonView> {
        match self {
            JsonView::Object(ms) => lookup(ms, key, 0),
            _ => None,
        }
    }

    /// The characters of a string; nothing of any other value.
    pub open spec fn text(self) -> Option<Seq<char>> {
        match self {
            JsonView::Text(t) => Some(t),
            _ => None,
        }
    }

    /// The member `key`, if it is a string.
    pub open spec fn text_field(self, key: Seq<char>) -> Option<Seq<char>> {
        match self.field(key) {
            Some(v) => v.text(),
            None => None,
        }
    }

    /// The member `key`, if it is a boolean.
    pub open spec fn bool_field(self, key: Seq<char>) -> Option<bool> {
        match self.field(key) {
            Some(JsonView::Bool(b)) => Some(b),
            _ => None,
        }
    }

    /// The member `key`, if it is an integer of 64 bits with sign.
    pub open spec fn int_field(self, key: Seq<char>) -> Option<int> {
        match self.field(key) {
            Some(JsonView::Number(n)) => n.integer(),
            _ => None,
        }
    }

    /// The member `key`, if it is an array.
    pub open spec fn array_field(self, key: Seq<char>) -> Option<Seq<JsonView>> {
        match self.field(key) {
            Some(JsonView::Array(v)) => Some(v),
            _ => None,
        }
    }
}

impl Number {
    /// The number, if it is an integer of 64 bits with sign.
    pub open spec fn integer(self) -> Option<int> {
        match self {
            Number::PosInt(n) => if n <= i64::MAX {
                Some(n as int)
            } else {
                None
            },
            Number::NegInt(n) => Some(n as int),
            Number::Float(_) => None,
        }
    }

    /// The number, if it is an integer of 64 bits with sign.
    pub fn as_i64(&self) -> (r: Option<i64>)
        ensures
            match r {
                Some(n) => self.integer() == Some(n as int),
                None => self.integer() is None,
            },
    {
        match *self {
            Number::PosInt(n) => if n <= 0x7fff_ffff_ffff_ffff {
                Some(n as i64)
            } else {
                None
            },
            Number::NegInt(n) => Some(n),
            Number::Float(_) => None,
        }
    }
}

impl Json {
    /// The member `key` of an object; nothing of any other value.
    pub fn get(&self, key: &str) -> (r: Option<&Json>)
        ensures
            match r {
                Some(v) => self@.field(key@) == Some(v@),
                None => self@.field(key@) is None,
            },
    {
        match self {
            Json::Object(ms) => {
                let ghost all = self@->Object_0;
                let mut i: usize = 0;
                while i < ms.len()
                    invariant
                        i <= ms.len(),
                        self@.field(key@) == lookup(all, key@, 0),
                        all.len() == ms@.len(),
                        forall|j: int|
                            0 <= j < ms@.len() ==> all[j] == (ms@[j].name@, ms@[j].value@),
                        lookup(all, key@, 0) == lookup(all, key@, i as int),
                    decreases ms.len() - i,
                {
                    if text::same(ms[i].name.as_str(), key) {
                        return Some(&ms[i].value);
                    }
                    i = i + 1;
                }
                None
            },
            _ => None,
        }
    }

    /// The member `key`, if it is a string.
    pub fn get_text(&self, key: &str) -> (r: Option<&String>)
        ensures
            match r {
                Some(t) => self@.text_field(key@) == Some(t@),
                None => self@.text_field(key@) is None,
            },
    {
        match self.get(key) {
            Some(Json::Text(t)) => Some(t),
            _ => None,
        }
    }

    /// The member `key`, if it is a boolean.
    pub fn get_bool(&self, key: &str) -> (r: Option<bool>)
        ensures
            r == self@.bool_field(key@),
    {
        match self.get(key) {
            Some(Json::Bool(b)) => Some(*b),
            _ => None,
        }
    }

    /// The member `key`, if it is an integer of 64 bits with sign.
    pub fn get_i64(&self, key: &str) -> (r: Option<i64>)
        ensures
            match r {
                Some(n) => self@.int_field(key@) == Some(n as int),
                None => self@.int_field(key@) is None,
            },
    {
        match self.get(key) {
            Some(Json::Number(n)) => n.as_i64(),
            _ => None,
        }
    }

    /// The member `key`, if it is an array.
    pub fn get_array(&self, key: &str) -> (r: Option<&Vec<Json>>)
        ensures
            match r {
                Some(v) => self@.array_field(key@) == Some(item_views(v@)),
                None => self@.array_field(key@) is None,
            },
    {
        match self.get(key) {
            Some(Json::Array(v)) => {
                proof {
                    let j = Json::Array(*v);
                    assert(j@->Array_0 =~= item_views(v@));
                }
                Some(v)
            },
            _ => None,
        }
    }

    /// The string that holds `s`.
    pub fn text(s: &str) -> (r: Json)
        ensures
            r@ == JsonView::Text(s@),
    {
        Json::Text(s.to_owned())
    }

    /// The number `n`.
    pub fn whole(n: u64) -> (r: Json)
        ensures
            r@ == JsonView::Number(Number::PosInt(n)),
    {
        Json::Number(Number::PosInt(n))
    }

    /// The array of `items`.
    pub fn array(items: Vec<Json>) -> (r: Json)
        ensures
            r@ == JsonView::Array(item_views(items@)),
    {
        let ghost v = items@;
        let r: Json = Json::Array(items);
        assert(r@->Array_0 =~= item_views(v));
        r
    }

    /// The object with no members.
    pub fn empty_object() -> (r: Json)
        ensures
            r@ == JsonView::Object(Seq::empty()),
    {
        ObjectBuilder::new().build()
    }

    /// A value with the same view.
    pub fn duplicate(&self) -> (r: Json)
        ensures
            r@ == self@,
        decreases self,
    {
        match self {
            Json::Null => Json::Null,
            Json::Bool(b) => Json::Bool(*b),
            Json::Number(n) => Json::Number(*n),
            Json::Text(t) => Json::Text(t.clone()),
            Json::Array(v) => {
                let mut w: Vec<Json> = Vec::new();
                let mut i: usize = 0;
                while i < v.len()
                    invariant
                        i <= v.len(),
                        *self == Json::Array(*v),
                        w@.len() == i,
                        forall|j: int| 0 <= j < i ==> w@[j]@ == v@[j]@,
                    decreases v.len() - i,
                {
                    proof {
                        assert(decreases_to!(v => v@));
                        assert(decreases_to!(v@ => v@[i as int]));
                        assert(decreases_to!(self => self->Array_0));
                    }
                    w.push(v[i].duplicate());
                    i = i + 1;
                }
                let r: Json = Json::Array(w);
                assert(r@->Array_0 =~= self@->Array_0);
                r
            },
            Json::Object(v) => {
                let mut w: Vec<Member> = Vec::new();
                let mut i: usize = 0;
                while i < v.len()
                    invariant
                        i <= v.len(),
                        *self == Json::Object(*v),
                        w@.len() == i,
                        forall|j: int|
                            0 <= j < i ==> w@[j].name@ == v@[j].name@ && w@[j].value@
                                == v@[j].value@,
                    decreases v.len() - i,
                {
                    proof {
                        assert(decreases_to!(v => v@));
                        assert(decreases_to!(v@ => v@[i as int]));
                        assert(decreases_to!(v@[i as int] => v@[i as int].value));
                        assert(decreases_to!(self => self->Object_0));
                    }
                    let m: &Member = &v[i];
                    w.push(Member { name: m.name.clone(), value: m.value.duplicate() });
                    i = i + 1;
                }
                let r: Json = Json::Object(w);
                assert(r@->Object_0 =~= self@->Object_0);
                r
            },
        }
    }
}

/// An object under construction.
pub struct ObjectBuilder {
    members: Vec<Member>,
}

impl View for ObjectBuilder {
    type V = Seq<(Seq<char>, JsonView)>;

    closed spec fn view(&self) -> Seq<(Seq<char>, JsonView)> {
        member_views(self.members@)
    }
}

impl ObjectBuilder {
    /// Begins an object.
    pub fn new() -> (r: ObjectBuilder)
        ensures
            r@ == Seq::<(Seq<char>, JsonView)>::empty(),
    {
        let r: ObjectBuilder = ObjectBuilder { members: Vec::new() };
        assert(r@ =~= Seq::<(Seq<char>, JsonView)>::empty());
        r
    }

    /// Adds a member.
    pub fn with(self, name: &str, value: Json) -> (r: ObjectBuilder)
        ensures
            r@ == self@.push((name@, value@)),
    {
        let mut members: Vec<Member> = self.members;
        let ghost before = members@;
        members.push(Member { name: name.to_owned(), value });
        assert(member_views(members@) =~= member_views(before).push((name@, value@)));
        ObjectBuilder { members }
    }

    /// Adds a member that is a string.
    pub fn with_text(self, name: &str, value: &str) -> (r: ObjectBuilder)
        ensures
            r@ == self@.push((name@, JsonView::Text(value@))),
    {
        self.with(name, Json::text(value))
    }

    /// Ends the object.
    pub fn build(self) -> (r: Json)
        ensures
            r@ == JsonView::Object(self@),
    {
        let ghost v = self.members@;
        let r: Json = Json::Object(self.members);
        assert(r@->Object_0 =~= member_views(v));
        r
    }
}

/// A member of an object is found under its name: the first that has it.
pub proof fn lemma_field(ms: Seq<(Seq<char>, JsonView)>, i: int, key: Seq<char>)
    requires
        0 <= i < ms.len(),
        ms[i].0 == key,
        forall|j: int| 0 <= j < i ==> (#[trigger] ms[j]).0 != key,
    ensures
        JsonView::Object(ms).field(key) == Some(ms[i].1),
{
    lemma_lookup(ms, key, 0, i);
}

proof fn lemma_lookup(ms: Seq<(Seq<char>, JsonView)>, key: Seq<char>, from: int, i: int)
    requires
        0 <= from <= i < ms.len(),
        ms[i].0 == key,
        forall|j: int| from <= j < i ==> (#[trigger] ms[j]).0 != key,
    ensures
        lookup(ms, key, from) == Some(ms[i].1),
    decreases i - from,
{
    if from < i {
        assert(ms[from].0 != key);
        lemma_lookup(ms, key, from + 1, i);
    }
}

/// Nothing is found under a name that no member has, and what is found is the
/// value of a member of that name.
pub proof fn lemma_no_field(ms: Seq<(Seq<char>, JsonView)>, key: Seq<char>)
    ensures
        JsonView::Object(ms).field(key) is None <==> forall|j: int|
            0 <= j < ms.len() ==> (#[trigger] ms[j]).0 != key,
{
    lemma_no_lookup(ms, key, 0);
}

proof fn lemma_no_lookup(ms: Seq<(Seq<char>, JsonView)>, key: Seq<char>, from: int)
    requires
        0 <= from <= ms.len(),
    ensures
        lookup(ms, key, from) is None <==> forall|j: int|
            from <= j < ms.len() ==> (#[trigger] ms[j]).0 != key,
    decreases ms.len() - from,
{
    if from < ms.len() {
        if ms[from].0 != key {
            lemma_no_lookup(ms, key, from + 1);
            assert forall|j: int|
                lookup(ms, key, from + 1) is None && from <= j < ms.len() implies (#[trigger] ms[j]).0
                != key by {}
        }
    }
}

/// A member is read as text, boolean, number or array exactly if it is one, and
/// then as what it holds; only an object has members.
pub proof fn lemma_typed_fields(v: JsonView, key: Seq<char>)
    ensures
        v.field(key) is Some ==> v is Object,
        match v.field(key) {
            Some(JsonView::Text(t)) => v.text_field(key) == Some(t),
            _ => v.text_field(key) is None,
        },
        match v.field(key) {
            Some(JsonView::Bool(b)) => v.bool_field(key) == Some(b),
            _ => v.bool_field(key) is None,
        },
        match v.field(key) {
            Some(JsonView::Array(a)) => v.array_field(key) == Some(a),
            _ => v.array_field(key) is None,
        },
        match v.field(key) {
            Some(JsonView::Number(Number::PosInt(n))) => n <= i64::MAX ==> v.int_field(key) == Some(
                n as int,
            ),
            Some(JsonView::Number(Number::NegInt(n))) => v.int_field(key) == Some(n as int),
            _ => v.int_field(key) is None,
        },
{
}

/// An array says what its items say, in order, and an object what its members
/// say, each under its name.
pub proof fn lemma_items_said(items: Vec<Json>, members: Vec<Member>)
    ensures
        (Json::Array(items)@ matches JsonView::Array(a) && a.len() == items@.len() && forall|i: int|
            0 <= i < a.len() ==> #[trigger] a[i] == items@[i]@),
        (Json::Object(members)@ matches JsonView::Object(o) && o.len() == members@.len()
            && forall|i: int|
            0 <= i < o.len() ==> (#[trigger] o[i]).0 == members@[i].name@ && o[i].1
                == members@[i].value@),
{
}

} // verus!
