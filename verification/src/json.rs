use vstd::prelude::*;

verus! {

/// A JSON number, kept the way `serde_json` keeps it: a non-negative
/// integer, a negative integer, or any other number held as its JSON text.
#[derive(Debug, PartialEq)]
pub enum JsonNumber {
    PosInt(u64),
    NegInt(i64),
    Float(String),
}

/// The mathematical value of a [`JsonNumber`].
pub enum NumV {
    PosInt(u64),
    NegInt(i64),
    Float(Seq<char>),
}

/// A JSON document as the proxy reads and writes it.
///
/// Objects are association lists; documents that arrive from outside have
/// distinct keys, and every function here that adds a member replaces the
/// first member with the same key, so keys stay distinct.
///
/// Two variants stand for text that is handled where values are turned into
/// bytes and back: `Encoded(v)` is the JSON string whose characters are the
/// compact JSON text of `v`, and `Decoded(t)` is the value written as the JSON
/// text `t` (built only from text that is known to parse).
#[derive(Debug, PartialEq)]
pub enum Json {
    Null,
    Bool(bool),
    Number(JsonNumber),
    Str(String),
    Array(Vec<Json>),
    Object(Vec<(String, Json)>),
    Encoded(Box<Json>),
    Decoded(String),
}

/// The mathematical value of a [`Json`] document.  As in [`Json`],
/// `Encoded(v)` is the JSON string holding the JSON text of `v`, and
/// `Decoded(t)` the value that the JSON text `t` is written as; they are
/// turned into those strings and values where documents become bytes.
pub enum JsonV {
    Null,
    Bool(bool),
    Number(NumV),
    Str(Seq<char>),
    Array(Seq<JsonV>),
    Object(Seq<(Seq<char>, JsonV)>),
    Encoded(Box<JsonV>),
    Decoded(Seq<char>),
}

impl View for JsonNumber {
    type V = NumV;

    open spec fn view(&self) -> NumV {
        match self {
            JsonNumber::PosInt(n) => NumV::PosInt(*n),
            JsonNumber::NegInt(n) => NumV::NegInt(*n),
            JsonNumber::Float(t) => NumV::Float(t@),
        }
    }
}

impl View for Json {
    type V = JsonV;

    open spec fn view(&self) -> JsonV {
        value_of(*self)
    }
}

/// The value of a document.
pub open spec fn value_of(j: Json) -> JsonV
    decreases j,
{
    match j {
        Json::Null => JsonV::Null,
        Json::Bool(b) => JsonV::Bool(b),
        Json::Number(n) => JsonV::Number(n@),
        Json::Str(s) => JsonV::Str(s@),
        Json::Array(items) => JsonV::Array(views(items@)),
        Json::Object(members) => JsonV::Object(member_views(members@)),
        Json::Encoded(inner) => JsonV::Encoded(Box::new(value_of(*inner))),
        Json::Decoded(t) => JsonV::Decoded(t@),
    }
}

/// The values of a sequence of documents.
pub open spec fn views(s: Seq<Json>) -> Seq<JsonV>
    decreases s,
{
    if s.len() == 0 {
        Seq::empty()
    } else {
        views(s.drop_last()).push(value_of(s.last()))
    }
}

/// The values of the members of an object.
pub open spec fn member_views(s: Seq<(String, Json)>) -> Seq<(Seq<char>, JsonV)>
    decreases s,
{
    if s.len() == 0 {
        Seq::empty()
    } else {
        member_views(s.drop_last()).push((s.last().0@, value_of(s.last().1)))
    }
}

/// The values of a sequence are those of its items, one for one.
pub proof fn lemma_views(s: Seq<Json>)
    ensures
        views(s).len() == s.len(),
        forall|i: int| 0 <= i < s.len() ==> #[trigger] views(s)[i] == s[i]@,
    decreases s.len(),
{
    if s.len() > 0 {
        lemma_views(s.drop_last());
    }
}

/// The values of members are those of their keys and values, one for one.
pub proof fn lemma_member_views(s: Seq<(String, Json)>)
    ensures
        member_views(s).len() == s.len(),
        forall|i: int|
            0 <= i < s.len() ==> #[trigger] member_views(s)[i] == (s[i].0@, s[i].1@),
    decreases s.len(),
{
    if s.len() > 0 {
        lemma_member_views(s.drop_last());
    }
}

/// Adding a document adds its value.
pub proof fn lemma_views_push(s: Seq<Json>, j: Json)
    ensures
        views(s.push(j)) == views(s).push(j@),
{
    assert(s.push(j).drop_last() =~= s);
}

/// Adding a member adds its key and value.
pub proof fn lemma_member_views_push(s: Seq<(String, Json)>, m: (String, Json))
    ensures
        member_views(s.push(m)) == member_views(s).push((m.0@, m.1@)),
{
    assert(s.push(m).drop_last() =~= s);
}

/// Where `key` first occurs among the members `m` (`m.len()` when it does not).
pub open spec fn key_position(m: Seq<(Seq<char>, JsonV)>, key: Seq<char>) -> int
    decreases m.len(),
{
    if m.len() == 0 {
        0
    } else if m[0].0 == key {
        0
    } else {
        1 + key_position(m.drop_first(), key)
    }
}

/// `key_position` is the first position of the key, if any.
pub proof fn lemma_key_position(m: Seq<(Seq<char>, JsonV)>, key: Seq<char>)
    ensures
        0 <= key_position(m, key) <= m.len(),
        forall|j: int| 0 <= j < key_position(m, key) ==> m[j].0 != key,
        key_position(m, key) < m.len() ==> m[key_position(m, key)].0 == key,
    decreases m.len(),
{
    if m.len() > 0 && m[0].0 != key {
        lemma_key_position(m.drop_first(), key);
        assert forall|j: int| 0 <= j < key_position(m, key) implies m[j].0 != key by {
            if j > 0 {
                assert(m[j] == m.drop_first()[j - 1]);
            }
        }
    }
}

/// The value of member `key` of the members `m`, if there is one.
pub open spec fn lookup(m: Seq<(Seq<char>, JsonV)>, key: Seq<char>) -> Option<JsonV> {
    let p = key_position(m, key);
    if p < m.len() {
        Some(m[p].1)
    } else {
        None
    }
}

/// The members `m` with member `key` set to `val`: replaced where it is,
/// added at the end where it is not.
pub open spec fn assoc_insert(m: Seq<(Seq<char>, JsonV)>, key: Seq<char>, val: JsonV) -> Seq<
    (Seq<char>, JsonV),
> {
    let p = key_position(m, key);
    if p < m.len() {
        m.update(p, (key, val))
    } else {
        m.push((key, val))
    }
}

/// Member `key` of `v`, where `v` is an object that has one.
pub open spec fn field(v: JsonV, key: Seq<char>) -> Option<JsonV> {
    match v {
        JsonV::Object(m) => lookup(m, key),
        _ => None,
    }
}

/// Member `key` of `v`, where it is a string.
pub open spec fn str_field(v: JsonV, key: Seq<char>) -> Option<Seq<char>> {
    match field(v, key) {
        Some(JsonV::Str(s)) => Some(s),
        _ => None,
    }
}

/// Member `key` of `v` where it is a string, else `default`.
pub open spec fn str_field_or(v: JsonV, key: Seq<char>, default: Seq<char>) -> Seq<char> {
    match str_field(v, key) {
        Some(s) => s,
        None => default,
    }
}

/// Member `key` of `v`, where it is an array.
pub open spec fn array_field(v: JsonV, key: Seq<char>) -> Option<Seq<JsonV>> {
    match field(v, key) {
        Some(JsonV::Array(a)) => Some(a),
        _ => None,
    }
}

/// Member `key` of `v`, where it is a boolean.
pub open spec fn bool_field(v: JsonV, key: Seq<char>) -> Option<bool> {
    match field(v, key) {
        Some(JsonV::Bool(b)) => Some(b),
        _ => None,
    }
}

/// `v` read as a 64-bit signed integer, as `serde_json`'s `as_i64` reads it.
pub open spec fn i64_value(v: JsonV) -> Option<i64> {
    match v {
        JsonV::Number(NumV::PosInt(n)) => if n <= i64::MAX {
            Some(n as i64)
        } else {
            None
        },
        JsonV::Number(NumV::NegInt(n)) => Some(n),
        _ => None,
    }
}

/// `v` with member `key` set to `val` where `v` is an object; other values unchanged.
pub open spec fn with_member(v: JsonV, key: Seq<char>, val: JsonV) -> JsonV {
    match v {
        JsonV::Object(m) => JsonV::Object(assoc_insert(m, key, val)),
        _ => v,
    }
}

/// Member `key` of `v`, or null where there is none.
pub open spec fn field_or_null(v: JsonV, key: Seq<char>) -> JsonV {
    match field(v, key) {
        Some(x) => x,
        None => JsonV::Null,
    }
}

/// A string value.
pub open spec fn jstr(s: Seq<char>) -> JsonV {
    JsonV::Str(s)
}

/// Whether `k` is the key `key`.
fn key_is(k: &String, key: &str) -> (r: bool)
    ensures
        r == (k@ == key@),
{
    *k == key.to_owned()
}

/// The index at which `key` first occurs among `members`.
fn position(members: &Vec<(String, Json)>, key: &str) -> (p: usize)
    ensures
        p == key_position(member_views(members@), key@),
{
    let ghost m = member_views(members@);
    proof {
        lemma_member_views(members@);
    }
    let mut i: usize = 0;
    while i < members.len()
        invariant
            m == member_views(members@),
            m.len() == members.len(),
            forall|j: int| 0 <= j < members.len() ==> #[trigger] m[j] == (members@[j].0@, members@[j].1@),
            i <= members.len(),
            forall|j: int| 0 <= j < i ==> m[j].0 != key@,
        decreases members.len() - i,
    {
        if key_is(&members[i].0, key) {
            proof {
                lemma_key_position(m, key@);
                assert(m[i as int].0 == key@);
                let kp = key_position(m, key@);
                if kp < i {
                    assert(m[kp].0 != key@);
                }
            }
            return i;
        }
        i = i + 1;
    }
    proof {
        lemma_key_position(m, key@);
    }
    i
}

/// Sets member `key` of `members` to `value`, replacing the first member with
/// that key or adding one at the end.
pub fn members_insert(members: &mut Vec<(String, Json)>, key: &str, value: Json)
    ensures
        member_views(final(members)@) == assoc_insert(member_views(old(members)@), key@, value@),
{
    let p = position(members, key);
    let ghost m = member_views(members@);
    proof {
        lemma_member_views(members@);
    }
    if p < members.len() {
        members.set(p, (key.to_owned(), value));
        proof {
            lemma_member_views(members@);
        }
        assert(member_views(members@) =~= assoc_insert(m, key@, value@));
    } else {
        members.push((key.to_owned(), value));
        proof {
            lemma_member_views(members@);
        }
        assert(member_views(members@) =~= assoc_insert(m, key@, value@));
    }
}

/// Whether `serde_json` reads `text` as a JSON value.
pub uninterp spec fn parses_as_json(text: Seq<char>) -> bool;

/// Asks `serde_json::from_str::<serde_json::Value>` whether `text` is the text
/// of a JSON value.  The contract claims only that the answer depends on the
/// text alone; which texts parse is `serde_json`'s grammar and is not written
/// out here.
#[verifier::external_body]
pub(crate) fn is_json_text(text: &str) -> (r: bool)
    ensures
        r == parses_as_json(text@),
{
    serde_json::from_str::<serde_json::Value>(text).is_ok()
}

/// Adds `value` at the end of `items`.
pub fn push_value(items: &mut Vec<Json>, value: Json)
    ensures
        views(final(items)@) == views(old(items)@).push(value@),
{
    proof {
        lemma_views_push(items@, value);
    }
    items.push(value);
}

/// Adds member `key` with `value` at the end of `members`.
pub fn push_member(members: &mut Vec<(String, Json)>, key: &str, value: Json)
    ensures
        member_views(final(members)@) == member_views(old(members)@).push((key@, value@)),
{
    let m = (key.to_owned(), value);
    proof {
        lemma_member_views_push(members@, m);
    }
    members.push(m);
}

/// An object of one member.
pub fn object1(k1: &str, v1: Json) -> (r: Json)
    ensures
        r@ == JsonV::Object(seq![(k1@, v1@)]),
{
    let mut m: Vec<(String, Json)> = Vec::new();
    assert(member_views(m@) =~= Seq::empty());
    push_member(&mut m, k1, v1);
    let r = Json::Object(m);
    assert(r@->Object_0 =~= seq![(k1@, v1@)]);
    r
}

/// An object of two members.
pub fn object2(k1: &str, v1: Json, k2: &str, v2: Json) -> (r: Json)
    ensures
        r@ == JsonV::Object(seq![(k1@, v1@), (k2@, v2@)]),
{
    let mut m: Vec<(String, Json)> = Vec::new();
    assert(member_views(m@) =~= Seq::empty());
    push_member(&mut m, k1, v1);
    push_member(&mut m, k2, v2);
    let r = Json::Object(m);
    assert(r@->Object_0 =~= seq![(k1@, v1@), (k2@, v2@)]);
    r
}

/// An object of three members.
pub fn object3(k1: &str, v1: Json, k2: &str, v2: Json, k3: &str, v3: Json) -> (r: Json)
    ensures
        r@ == JsonV::Object(seq![(k1@, v1@), (k2@, v2@), (k3@, v3@)]),
{
    let mut m: Vec<(String, Json)> = Vec::new();
    assert(member_views(m@) =~= Seq::empty());
    push_member(&mut m, k1, v1);
    push_member(&mut m, k2, v2);
    push_member(&mut m, k3, v3);
    let r = Json::Object(m);
    assert(r@->Object_0 =~= seq![(k1@, v1@), (k2@, v2@), (k3@, v3@)]);
    r
}

/// An object of four members.
pub fn object4(k1: &str, v1: Json, k2: &str, v2: Json, k3: &str, v3: Json, k4: &str, v4: Json) -> (r:
    Json)
    ensures
        r@ == JsonV::Object(seq![(k1@, v1@), (k2@, v2@), (k3@, v3@), (k4@, v4@)]),
{
    let mut m: Vec<(String, Json)> = Vec::new();
    assert(member_views(m@) =~= Seq::empty());
    push_member(&mut m, k1, v1);
    push_member(&mut m, k2, v2);
    push_member(&mut m, k3, v3);
    push_member(&mut m, k4, v4);
    let r = Json::Object(m);
    assert(r@->Object_0 =~= seq![(k1@, v1@), (k2@, v2@), (k3@, v3@), (k4@, v4@)]);
    r
}

/// The text of member `key` of `v` where it is a string, else `default`.
pub fn str_or(v: &Json, key: &str, default: &str) -> (r: String)
    ensures
        r@ == str_field_or(v@, key@, default@),
{
    match v.get(key) {
        Some(x) => match x.as_str() {
            Some(s) => s.clone(),
            None => default.to_owned(),
        },
        None => default.to_owned(),
    }
}

impl Json {
    /// A string value.
    pub fn string(s: &str) -> (r: Json)
        ensures
            r@ == JsonV::Str(s@),
    {
        Json::Str(s.to_owned())
    }

    /// Member `key` of this value, where it is an object that has one.
    pub fn get(&self, key: &str) -> (r: Option<&Json>)
        ensures
            match r {
                Some(x) => field(self@, key@) == Some(x@),
                None => field(self@, key@) is None,
            },
    {
        match self {
            Json::Object(members) => {
                let p = position(members, key);
                proof {
                    lemma_member_views(members@);
                }
                if p < members.len() {
                    Some(&members[p].1)
                } else {
                    None
                }
            },
            _ => None,
        }
    }

    /// The text of this value, where it is a string.
    pub fn as_str(&self) -> (r: Option<&String>)
        ensures
            match r {
                Some(s) => self@ == JsonV::Str(s@),
                None => !(self@ is Str),
            },
    {
        match self {
            Json::Str(s) => Some(s),
            _ => None,
        }
    }

    /// The items of this value, where it is an array.
    pub fn as_array(&self) -> (r: Option<&Vec<Json>>)
        ensures
            match r {
                Some(a) => self@ == JsonV::Array(views(a@)),
                None => !(self@ is Array),
            },
    {
        match self {
            Json::Array(items) => {
                Some(items)
            },
            _ => None,
        }
    }

    /// This value, where it is a boolean.
    pub fn as_bool(&self) -> (r: Option<bool>)
        ensures
            match r {
                Some(b) => self@ == JsonV::Bool(b),
                None => !(self@ is Bool),
            },
    {
        match self {
            Json::Bool(b) => Some(*b),
            _ => None,
        }
    }

    /// This value as a 64-bit signed integer, where it is an integer in range.
    pub fn as_i64(&self) -> (r: Option<i64>)
        ensures
            r == i64_value(self@),
    {
        match self {
            Json::Number(JsonNumber::PosInt(n)) => {
                if *n <= 9223372036854775807u64 {
                    Some(*n as i64)
                } else {
                    None
                }
            },
            Json::Number(JsonNumber::NegInt(n)) => Some(*n),
            _ => None,
        }
    }

    /// Sets member `key` to `value` where this value is an object; other
    /// values are left as they are.
    pub fn insert(&mut self, key: &str, value: Json)
        ensures
            final(self)@ == with_member(old(self)@, key@, value@),
    {
        match self {
            Json::Object(members) => {
                members_insert(members, key, value);
            },
            _ => {},
        }
    }

    /// A copy of this value.
    pub fn deep_clone(&self) -> (r: Json)
        ensures
            r@ == self@,
        decreases self,
    {
        match self {
            Json::Null => Json::Null,
            Json::Bool(b) => Json::Bool(*b),
            Json::Number(JsonNumber::PosInt(n)) => Json::Number(JsonNumber::PosInt(*n)),
            Json::Number(JsonNumber::NegInt(n)) => Json::Number(JsonNumber::NegInt(*n)),
            Json::Number(JsonNumber::Float(t)) => Json::Number(JsonNumber::Float(t.clone())),
            Json::Str(s) => Json::Str(s.clone()),
            Json::Decoded(t) => Json::Decoded(t.clone()),
            Json::Encoded(inner) => {
                proof {
                    assert(decreases_to!(*self => self->Encoded_0));
                }
                let c = (**inner).deep_clone();
                Json::Encoded(Box::new(c))
            },
            Json::Array(items) => {
                let mut out: Vec<Json> = Vec::new();
                let mut i: usize = 0;
                while i < items.len()
                    invariant
                        *self == Json::Array(*items),
                        i <= items.len(),
                        out.len() == i,
                        forall|k: int| 0 <= k < i ==> out[k]@ == items[k]@,
                    decreases items.len() - i,
                {
                    let item = &items[i];
                    proof {
                        assert(decreases_to!(*self => self->Array_0));
                        assert(decreases_to!(self->Array_0 => self->Array_0@));
                        assert(decreases_to!(self->Array_0@ => self->Array_0@[i as int]));
                    }
                    let c = item.deep_clone();
                    out.push(c);
                    i = i + 1;
                }
                proof {
                    lemma_views(out@);
                    lemma_views(items@);
                }
                let r = Json::Array(out);
                assert(r@->Array_0 =~= self@->Array_0);
                r
            },
            Json::Object(members) => {
                let mut out: Vec<(String, Json)> = Vec::new();
                let mut i: usize = 0;
                while i < members.len()
                    invariant
                        *self == Json::Object(*members),
                        i <= members.len(),
                        out.len() == i,
                        forall|k: int|
                            0 <= k < i ==> out[k].0@ == members[k].0@ && out[k].1@ == members[k].1@,
                    decreases members.len() - i,
                {
                    let member = &members[i];
                    proof {
                        assert(decreases_to!(*self => self->Object_0));
                        assert(decreases_to!(self->Object_0 => self->Object_0@));
                        assert(decreases_to!(self->Object_0@ => self->Object_0@[i as int]));
                        assert(decreases_to!(self->Object_0@[i as int] => self->Object_0@[i as int].1));
                    }
                    let c = member.1.deep_clone();
                    out.push((member.0.clone(), c));
                    i = i + 1;
                }
                proof {
                    lemma_member_views(out@);
                    lemma_member_views(members@);
                }
                let r = Json::Object(out);
                assert(r@->Object_0 =~= self@->Object_0);
                r
            },
        }
    }
}


/// Setting a member of an object and then reading it gives the value set;
/// every other member reads as before.
pub proof fn lemma_member_read_after_write(v: JsonV, key: Seq<char>, val: JsonV, other: Seq<char>)
    requires
        v is Object,
    ensures
        field(with_member(v, key, val), key) == Some(val),
        other != key ==> field(with_member(v, key, val), other) == field(v, other),
{
    let m = v->Object_0;
    let n = assoc_insert(m, key, val);
    lemma_key_position(m, key);
    lemma_key_position(n, key);
    lemma_key_position(m, other);
    lemma_key_position(n, other);
    let p = key_position(m, key);
    let pn = key_position(n, key);
    if pn < p {
        assert(n[pn] == m[pn]);
    }
    if pn > p {
        assert(n[p].0 == key);
    }
    if other != key {
        let q = key_position(m, other);
        let qn = key_position(n, other);
        if qn < q {
            assert(n[qn].0 == m[qn].0);
        }
        if qn > q && q < m.len() {
            assert(n[q].0 == m[q].0);
        }
        if q < m.len() {
            assert(qn == q);
            assert(n[q] == m[q]);
        } else {
            assert(qn >= m.len());
        }
    }
}

/// Setting a member to the value it already has changes nothing.
pub proof fn lemma_write_back_unchanged(v: JsonV, key: Seq<char>)
    requires
        field(v, key) is Some,
    ensures
        with_member(v, key, field(v, key)->0) == v,
{
    let m = v->Object_0;
    lemma_key_position(m, key);
    let p = key_position(m, key);
    assert(m.update(p, (key, m[p].1)) =~= m);
}

/// Setting a member twice is setting it once to the second value.
pub proof fn lemma_member_written_twice(v: JsonV, key: Seq<char>, a: JsonV, b: JsonV)
    ensures
        with_member(with_member(v, key, a), key, b) == with_member(v, key, b),
{
    if v is Object {
        let m = v->Object_0;
        let n = assoc_insert(m, key, a);
        lemma_key_position(m, key);
        lemma_key_position(n, key);
        let p = key_position(m, key);
        let q = key_position(n, key);
        if q < p {
            assert(n[q] == m[q]);
        }
        if q > p {
            assert(n[p].0 == key);
        }
        assert(q == p);
        assert(assoc_insert(n, key, b) =~= assoc_insert(m, key, b));
    }
}

} // verus!
