//! JSON documents as plain data: the shape the worker reads and writes.
use vstd::prelude::*;

verus! {

/// A JSON number. Integers keep their value; any other number keeps its text.
#[derive(Debug, PartialEq, Eq)]
pub enum Number {
    PosInt(u64),
    NegInt(i64),
    Float(String),
}

/// A JSON document. An object lists its members in order.
#[derive(Debug, PartialEq, Eq)]
pub enum Json {
    Null,
    Bool(bool),
    Number(Number),
    Text(String),
    Array(Vec<Json>),
    Object(Vec<(String, Json)>),
}

/// What a number stands for.
#[verifier::ext_equal]
pub enum NumberView {
    PosInt(u64),
    NegInt(i64),
    Float(Seq<char>),
}

/// What a document stands for: the same tree over mathematical strings and sequences.
#[verifier::ext_equal]
pub enum JsonView {
    Null,
    Bool(bool),
    Number(NumberView),
    Text(Seq<char>),
    Array(Seq<JsonView>),
    Object(Seq<(Seq<char>, JsonView)>),
}

impl View for Number {
    type V = NumberView;

    open spec fn view(&self) -> NumberView {
        match self {
            Number::PosInt(n) => NumberView::PosInt(*n),
            Number::NegInt(n) => NumberView::NegInt(*n),
            Number::Float(s) => NumberView::Float(s@),
        }
    }
}

/// The view of a document, by recursion on the tree.
pub open spec fn model(j: Json) -> JsonView
    decreases j,
{
    match j {
        Json::Null => JsonView::Null,
        Json::Bool(b) => JsonView::Bool(b),
        Json::Number(n) => JsonView::Number(n@),
        Json::Text(s) => JsonView::Text(s@),
        Json::Array(items) => JsonView::Array(
            Seq::new(
                items@.len(),
                |i: int|
                    if 0 <= i < items@.len() {
                        model(items@[i])
                    } else {
                        JsonView::Null
                    },
            ),
        ),
        Json::Object(members) => JsonView::Object(
            Seq::new(
                members@.len(),
                |i: int|
                    if 0 <= i < members@.len() {
                        (members@[i].0@, model(members@[i].1))
                    } else {
                        (Seq::empty(), JsonView::Null)
                    },
            ),
        ),
    }
}

impl View for Json {
    type V = JsonView;

    open spec fn view(&self) -> JsonView {
        model(*self)
    }
}

// ---------------------------------------------------------------------------
// Reading a document
// ---------------------------------------------------------------------------

/// The views of a list of documents.
pub open spec fn models(items: Seq<Json>) -> Seq<JsonView> {
    Seq::new(items.len(), |i: int| items[i]@)
}

/// The views of the members of an object.
pub open spec fn member_models(members: Seq<(String, Json)>) -> Seq<(Seq<char>, JsonView)> {
    Seq::new(members.len(), |i: int| (members[i].0@, members[i].1@))
}

/// Where the member named `key` stands; the last one, should a name occur twice.
pub open spec fn position(members: Seq<(Seq<char>, JsonView)>, key: Seq<char>) -> Option<int>
    decreases members.len(),
{
    if members.len() == 0 {
        None
    } else if members.last().0 == key {
        Some(members.len() - 1)
    } else {
        position(members.drop_last(), key)
    }
}

/// The value of the member named `key` of an object; nothing for any other document.
pub open spec fn get(j: JsonView, key: Seq<char>) -> Option<JsonView> {
    match j {
        JsonView::Object(members) => match position(members, key) {
            Some(i) => Some(members[i].1),
            None => None,
        },
        _ => None,
    }
}

/// The value reached from `j` by the member names in `path`, outermost first.
pub open spec fn at(j: JsonView, path: Seq<Seq<char>>) -> Option<JsonView>
    decreases path.len(),
{
    if path.len() == 0 {
        Some(j)
    } else {
        match get(j, path[0]) {
            Some(next) => at(next, path.skip(1)),
            None => None,
        }
    }
}

/// The string that an optional document is, if it is one.
pub open spec fn text(j: Option<JsonView>) -> Option<Seq<char>> {
    match j {
        Some(JsonView::Text(s)) => Some(s),
        _ => None,
    }
}

/// The items of an array; none for anything else.
pub open spec fn items(j: Option<JsonView>) -> Seq<JsonView> {
    match j {
        Some(JsonView::Array(a)) => a,
        _ => Seq::empty(),
    }
}

/// The members of an object; none for anything else.
pub open spec fn members(j: Option<JsonView>) -> Seq<(Seq<char>, JsonView)> {
    match j {
        Some(JsonView::Object(m)) => m,
        _ => Seq::empty(),
    }
}

/// The strings among `a`, in order.
pub open spec fn texts(a: Seq<JsonView>) -> Seq<Seq<char>>
    decreases a.len(),
{
    if a.len() == 0 {
        Seq::empty()
    } else {
        match a.last() {
            JsonView::Text(s) => texts(a.drop_last()).push(s),
            _ => texts(a.drop_last()),
        }
    }
}

/// The members whose value is a string, in order.
pub open spec fn text_members(m: Seq<(Seq<char>, JsonView)>) -> Seq<(Seq<char>, Seq<char>)>
    decreases m.len(),
{
    if m.len() == 0 {
        Seq::empty()
    } else {
        match m.last().1 {
            JsonView::Text(s) => text_members(m.drop_last()).push((m.last().0, s)),
            _ => text_members(m.drop_last()),
        }
    }
}

/// The value of a boolean.
pub open spec fn boolean(j: Option<JsonView>) -> Option<bool> {
    match j {
        Some(JsonView::Bool(b)) => Some(b),
        _ => None,
    }
}

/// The value of a number as an `i64`, where it is an integer in that range.
pub open spec fn as_i64(j: Option<JsonView>) -> Option<i64> {
    match j {
        Some(JsonView::Number(NumberView::PosInt(n))) => if n <= i64::MAX {
            Some(n as i64)
        } else {
            None
        },
        Some(JsonView::Number(NumberView::NegInt(n))) => Some(n),
        _ => None,
    }
}

/// The value of a number as a `u64`, where it is a non-negative integer.
pub open spec fn as_u64(j: Option<JsonView>) -> Option<u64> {
    match j {
        Some(JsonView::Number(NumberView::PosInt(n))) => Some(n),
        _ => None,
    }
}

/// The members with `key` set to `value`: in its place where it is there, else at the end.
pub open spec fn with_member(
    members: Seq<(Seq<char>, JsonView)>,
    key: Seq<char>,
    value: JsonView,
) -> Seq<(Seq<char>, JsonView)> {
    match position(members, key) {
        Some(i) => members.update(i, (key, value)),
        None => members.push((key, value)),
    }
}

/// A position is within bounds, holds the key, and no later member does.
pub proof fn lemma_position(members: Seq<(Seq<char>, JsonView)>, key: Seq<char>)
    ensures
        match position(members, key) {
            Some(i) => 0 <= i < members.len() && members[i].0 == key && forall|k: int|
                i < k < members.len() ==> (#[trigger] members[k]).0 != key,
            None => forall|k: int| 0 <= k < members.len() ==> (#[trigger] members[k]).0 != key,
        },
    decreases members.len(),
{
    if members.len() > 0 && members.last().0 != key {
        let init = members.drop_last();
        lemma_position(init, key);
        assert forall|k: int| 0 <= k < members.len() - 1 implies (#[trigger] members[k])
            == init[k] by {}
    }
}

/// What holds the key and has no later holder is the position.
pub proof fn lemma_position_is(members: Seq<(Seq<char>, JsonView)>, key: Seq<char>, i: int)
    requires
        0 <= i < members.len(),
        members[i].0 == key,
        forall|k: int| i < k < members.len() ==> (#[trigger] members[k]).0 != key,
    ensures
        position(members, key) == Some(i),
{
    lemma_position(members, key);
}

/// A set member reads back what was set, and every other member what it held before.
pub proof fn lemma_with_member(
    members: Seq<(Seq<char>, JsonView)>,
    key: Seq<char>,
    value: JsonView,
    other: Seq<char>,
)
    ensures
        get(JsonView::Object(with_member(members, key, value)), key) == Some(value),
        other != key ==> get(JsonView::Object(with_member(members, key, value)), other) == get(
            JsonView::Object(members),
            other,
        ),
{
    let after = with_member(members, key, value);
    lemma_position(members, key);
    lemma_position(after, key);
    lemma_position(members, other);
    lemma_position(after, other);
    let at_key: int = match position(members, key) {
        Some(i) => i,
        None => members.len() as int,
    };
    assert(after[at_key] == (key, value));
    lemma_position_is(after, key, at_key);
    if other != key {
        match position(members, other) {
            Some(i) => {
                assert(after[i] == members[i]);
                lemma_position_is(after, other, i);
            },
            None => {
                assert(position(after, other) is None) by {
                    if position(after, other) is Some {
                        let k = position(after, other)->0;
                        assert(after[k].0 == other);
                        assert(members[k].0 == other);
                    }
                }
            },
        }
    }
}

impl Json {
    /// The member named `key` of an object.
    pub fn get(&self, key: &str) -> (r: Option<&Json>)
        ensures
            match r {
                Some(j) => get(self@, key@) == Some(j@),
                None => get(self@, key@) is None,
            },
    {
        match self {
            Json::Object(members) => {
                let ghost all = member_models(members@);
                assert(self@->Object_0 =~= all);
                let mut n: usize = members.len();
                assert(all.take(n as int) =~= all);
                while n > 0
                    invariant
                        n <= members@.len(),
                        all == member_models(members@),
                        self@ == JsonView::Object(all),
                        position(all, key@) == position(all.take(n as int), key@),
                    decreases n,
                {
                    assert(all.take(n as int).drop_last() =~= all.take(n - 1));
                    if crate::text::same(&members[n - 1].0, key) {
                        return Some(&members[n - 1].1);
                    }
                    n -= 1;
                }
                None
            },
            _ => None,
        }
    }

    /// The value reached by the member names in `path`.
    pub fn at(&self, path: &[&str]) -> (r: Option<&Json>)
        ensures
            match r {
                Some(j) => at(self@, path.deep_view()) == Some(j@),
                None => at(self@, path.deep_view()) is None,
            },
    {
        let mut cur: &Json = self;
        let mut i: usize = 0;
        let ghost all = path.deep_view();
        assert(all.skip(0) =~= all);
        while i < path.len()
            invariant
                i <= path@.len(),
                all == path.deep_view(),
                at(self@, all) == at(cur@, all.skip(i as int)),
            decreases path@.len() - i,
        {
            assert(all.skip(i as int)[0] == path@[i as int]@);
            assert(all.skip(i as int).skip(1) =~= all.skip(i + 1));
            match cur.get(path[i]) {
                Some(next) => {
                    cur = next;
                },
                None => {
                    return None;
                },
            }
            i += 1;
        }
        Some(cur)
    }

    /// The string that the document is, if it is one.
    pub fn as_str(&self) -> (r: Option<&str>)
        ensures
            match r {
                Some(s) => text(Some(self@)) == Some(s@),
                None => text(Some(self@)) is None,
            },
    {
        match self {
            Json::Text(s) => Some(s.as_str()),
            _ => None,
        }
    }

    /// The items of an array.
    pub fn as_array(&self) -> (r: Option<&Vec<Json>>)
        ensures
            match r {
                Some(v) => self@ == JsonView::Array(models(v@)),
                None => !(self@ is Array),
            },
    {
        match self {
            Json::Array(v) => {
                assert(self@->Array_0 =~= models(v@));
                Some(v)
            },
            _ => None,
        }
    }

    /// The members of an object.
    pub fn as_object(&self) -> (r: Option<&Vec<(String, Json)>>)
        ensures
            match r {
                Some(v) => self@ == JsonView::Object(member_models(v@)),
                None => !(self@ is Object),
            },
    {
        match self {
            Json::Object(v) => {
                assert(self@->Object_0 =~= member_models(v@));
                Some(v)
            },
            _ => None,
        }
    }

    /// The value of an integer that fits in `i64`.
    pub fn as_i64(&self) -> (r: Option<i64>)
        ensures
            r == as_i64(Some(self@)),
    {
        match self {
            Json::Number(Number::PosInt(n)) => if *n <= 0x7fff_ffff_ffff_ffff {
                Some(*n as i64)
            } else {
                None
            },
            Json::Number(Number::NegInt(n)) => Some(*n),
            _ => None,
        }
    }

    /// The value of a non-negative integer.
    pub fn as_u64(&self) -> (r: Option<u64>)
        ensures
            r == as_u64(Some(self@)),
    {
        match self {
            Json::Number(Number::PosInt(n)) => Some(*n),
            _ => None,
        }
    }

    /// The value of a boolean.
    pub fn as_bool(&self) -> (r: Option<bool>)
        ensures
            r == boolean(Some(self@)),
    {
        match self {
            Json::Bool(b) => Some(*b),
            _ => None,
        }
    }

    /// Whether the document is `null`.
    pub fn is_null(&self) -> (r: bool)
        ensures
            r == (self@ is Null),
    {
        match self {
            Json::Null => true,
            _ => false,
        }
    }
}

/// The string at `path`, if one is there.
pub fn str_at<'a>(doc: &'a Json, path: &[&str]) -> (r: Option<&'a str>)
    ensures
        match r {
            Some(s) => text(at(doc@, path.deep_view())) == Some(s@),
            None => text(at(doc@, path.deep_view())) is None,
        },
{
    match doc.at(path) {
        Some(j) => j.as_str(),
        None => None,
    }
}

/// The strings of the array at `path`, in order.
pub fn strings_at(doc: &Json, path: &[&str]) -> (r: Vec<String>)
    ensures
        r.deep_view() == texts(items(at(doc@, path.deep_view()))),
{
    let mut out: Vec<String> = Vec::new();
    if let Some(j) = doc.at(path) {
        if let Some(a) = j.as_array() {
            let ghost all = models(a@);
            for i in 0..a.len()
                invariant
                    all == models(a@),
                    out.deep_view() == texts(all.take(i as int)),
            {
                assert(all.take(i + 1).drop_last() =~= all.take(i as int));
                if let Some(s) = a[i].as_str() {
                    let ghost before = out.deep_view();
                    out.push(s.to_owned());
                    assert(out.deep_view() =~= before.push(s@));
                }
            }
            assert(all.take(a@.len() as int) =~= all);
        }
    }
    out
}

/// The members of the object at `path` whose value is a string, in order.
pub fn pairs_at(doc: &Json, path: &[&str]) -> (r: Vec<(String, String)>)
    ensures
        r.deep_view() == text_members(members(at(doc@, path.deep_view()))),
{
    let mut out: Vec<(String, String)> = Vec::new();
    if let Some(j) = doc.at(path) {
        if let Some(m) = j.as_object() {
            let ghost all = member_models(m@);
            for i in 0..m.len()
                invariant
                    all == member_models(m@),
                    out.deep_view() == text_members(all.take(i as int)),
            {
                assert(all.take(i + 1).drop_last() =~= all.take(i as int));
                if let Some(s) = m[i].1.as_str() {
                    let ghost before = out.deep_view();
                    out.push((m[i].0.clone(), s.to_owned()));
                    assert(out.deep_view() =~= before.push((m@[i as int].0@, s@)));
                }
            }
            assert(all.take(m@.len() as int) =~= all);
        }
    }
    out
}

/// The members with `key` set to `value`.
pub fn set_member(members: &Vec<(String, Json)>, key: &str, value: Json) -> (r: Vec<(String, Json)>)
    ensures
        member_models(r@) == with_member(member_models(members@), key@, value@),
{
    let ghost all = member_models(members@);
    let mut out: Vec<(String, Json)> = Vec::new();
    for i in 0..members.len()
        invariant
            all == member_models(members@),
            member_models(out@) == all.take(i as int),
    {
        let ghost before = member_models(out@);
        out.push((members[i].0.clone(), members[i].1.clone()));
        assert(member_models(out@) =~= before.push(all[i as int]));
        assert(all.take(i + 1) =~= all.take(i as int).push(all[i as int]));
    }
    assert(all.take(members@.len() as int) =~= all);
    let mut n: usize = members.len();
    while n > 0
        invariant
            n <= members@.len(),
            out@.len() == members@.len(),
            all == member_models(members@),
            member_models(out@) == all,
            position(all, key@) == position(all.take(n as int), key@),
        decreases n,
    {
        assert(all.take(n as int).drop_last() =~= all.take(n - 1));
        if crate::text::same(&members[n - 1].0, key) {
            out.set(n - 1, (key.to_owned(), value));
            assert(member_models(out@) =~= all.update(n - 1, (key@, value@)));
            return out;
        }
        n -= 1;
    }
    out.push((key.to_owned(), value));
    assert(member_models(out@) =~= all.push((key@, value@)));
    out
}

// ---------------------------------------------------------------------------
// Copying a document
// ---------------------------------------------------------------------------

impl Clone for Number {
    fn clone(&self) -> (r: Number)
        ensures
            r == *self,
    {
        match self {
            Number::PosInt(n) => Number::PosInt(*n),
            Number::NegInt(n) => Number::NegInt(*n),
            Number::Float(s) => Number::Float(s.clone()),
        }
    }
}

/// Copies a document.
fn duplicate(j: &Json) -> (r: Json)
    ensures
        r@ == j@,
    decreases j,
{
    match j {
        Json::Null => Json::Null,
        Json::Bool(b) => Json::Bool(*b),
        Json::Number(n) => Json::Number(n.clone()),
        Json::Text(s) => Json::Text(s.clone()),
        Json::Array(items) => {
            let mut out: Vec<Json> = Vec::new();
            for i in 0..items.len()
                invariant
                    *j == Json::Array(*items),
                    out@.len() == i,
                    forall|k: int| 0 <= k < i ==> (#[trigger] out@[k])@ == items@[k]@,
            {
                proof {
                    assert(decreases_to!(j => j->Array_0));
                    assert(decreases_to!(j->Array_0 => j->Array_0@));
                    assert(decreases_to!(j->Array_0@ => items@[i as int]));
                }
                out.push(duplicate(&items[i]));
            }
            let r = Json::Array(out);
            assert(r@->Array_0 =~= j@->Array_0);
            r
        },
        Json::Object(members) => {
            let mut out: Vec<(String, Json)> = Vec::new();
            for i in 0..members.len()
                invariant
                    *j == Json::Object(*members),
                    out@.len() == i,
                    forall|k: int|
                        0 <= k < i ==> (#[trigger] out@[k]).0@ == members@[k].0@ && out@[k].1@
                            == members@[k].1@,
            {
                proof {
                    assert(decreases_to!(j => j->Object_0));
                    assert(decreases_to!(j->Object_0 => j->Object_0@));
                    assert(decreases_to!(j->Object_0@ => members@[i as int]));
                    assert(decreases_to!(members@[i as int] => members@[i as int].1));
                }
                out.push((members[i].0.clone(), duplicate(&members[i].1)));
            }
            let r = Json::Object(out);
            assert(r@->Object_0 =~= j@->Object_0);
            r
        },
    }
}

impl Clone for Json {
    fn clone(&self) -> (r: Json)
        ensures
            r@ == self@,
    {
        duplicate(self)
    }
}

// ---------------------------------------------------------------------------
// Reading a JSON text
// ---------------------------------------------------------------------------

/// `serde_json::Value`: a parsed document, as `serde_json` holds it.
#[verifier::external_type_specification]
#[verifier::external_body]
pub struct ExValue(serde_json::Value);

/// One level of a `serde_json::Value`, its parts still unopened.
enum Opened {
    Null,
    Bool(bool),
    Number { unsigned: Option<u64>, signed: Option<i64>, text: String },
    Text(String),
    Array(Vec<serde_json::Value>),
    Object(Vec<(String, serde_json::Value)>),
}

/// The number that reads as `unsigned` and as `signed` where it is such an integer, and is
/// written `text`.
pub open spec fn number_view(
    unsigned: Option<u64>,
    signed: Option<i64>,
    text: Seq<char>,
) -> NumberView {
    match (unsigned, signed) {
        (Some(n), _) => NumberView::PosInt(n),
        (None, Some(n)) => NumberView::NegInt(n),
        (None, None) => NumberView::Float(text),
    }
}

/// The document that a `serde_json::Value` holds.
pub uninterp spec fn value_view(v: serde_json::Value) -> JsonView;

/// The variants of `serde_json::Value`, told apart and their parts handed out. A number is
/// handed out as `Number::as_u64`, `Number::as_i64` and its `to_string` give it; an object
/// as the pairs of its map, in the order in which the map is walked. The claim is that the
/// document which the value holds is the one made of these parts.
#[verifier::external_body]
fn open_value(v: serde_json::Value) -> (r: Opened)
    ensures
        match r {
            Opened::Null => value_view(v) == JsonView::Null,
            Opened::Bool(b) => value_view(v) == JsonView::Bool(b),
            Opened::Number { unsigned, signed, text } => value_view(v) == JsonView::Number(
                number_view(unsigned, signed, text@),
            ),
            Opened::Text(s) => value_view(v) == JsonView::Text(s@),
            Opened::Array(items) => value_view(v) == JsonView::Array(
                items@.map_values(|x: serde_json::Value| value_view(x)),
            ),
            Opened::Object(members) => value_view(v) == JsonView::Object(
                members@.map_values(|m: (String, serde_json::Value)| (m.0@, value_view(m.1))),
            ),
        },
{
    match v {
        serde_json::Value::Null => Opened::Null,
        serde_json::Value::Bool(b) => Opened::Bool(b),
        serde_json::Value::Number(n) => {
            Opened::Number { unsigned: n.as_u64(), signed: n.as_i64(), text: n.to_string() }
        },
        serde_json::Value::String(s) => Opened::Text(s),
        serde_json::Value::Array(items) => Opened::Array(items),
        serde_json::Value::Object(members) => Opened::Object(members.into_iter().collect()),
    }
}

/// The document that a JSON text denotes, or the message of the error in it.
pub uninterp spec fn parsed(text: Seq<char>) -> Result<JsonView, Seq<char>>;

/// `serde_json::from_str` into a `Value`: the document that the text denotes, or the
/// message of the error in it. Either depends on the text alone; which texts are JSON, and
/// what the messages say, is left unsaid.
#[verifier::external_body]
fn value_from_str(text: &str) -> (r: Result<serde_json::Value, String>)
    ensures
        match r {
            Ok(v) => parsed(text@) == Ok::<JsonView, Seq<char>>(value_view(v)),
            Err(e) => parsed(text@) == Err::<JsonView, Seq<char>>(e@),
        },
{
    serde_json::from_str::<serde_json::Value>(text).map_err(|e| e.to_string())
}

/// The document that the bytes of a JSON text denote, or the message of the error in them.
pub uninterp spec fn parsed_bytes(bytes: Seq<u8>) -> Result<JsonView, Seq<char>>;

/// `serde_json::from_slice` into a `Value`: the document that the bytes denote, or the
/// message of the error in them. Either depends on the bytes alone; which bytes are JSON,
/// and what the messages say, is left unsaid.
#[verifier::external_body]
fn value_from_slice(bytes: &[u8]) -> (r: Result<serde_json::Value, String>)
    ensures
        match r {
            Ok(v) => parsed_bytes(bytes@) == Ok::<JsonView, Seq<char>>(value_view(v)),
            Err(e) => parsed_bytes(bytes@) == Err::<JsonView, Seq<char>>(e@),
        },
{
    serde_json::from_slice::<serde_json::Value>(bytes).map_err(|e| e.to_string())
}

/// The compact text of a document.
pub uninterp spec fn rendered(doc: JsonView) -> Seq<char>;

/// `to_string` of a `serde_json::Value`: its compact JSON text. The text depends on the
/// document alone; how it is spaced and escaped is left unsaid.
#[verifier::external_body]
fn value_text(v: &serde_json::Value) -> (r: String)
    ensures
        r@ == rendered(value_view(*v)),
{
    v.to_string()
}

/// The document that a `serde_json::Value` holds, as plain data.
fn from_value(v: serde_json::Value) -> (r: Json)
    ensures
        r@ == value_view(v),
    decreases value_view(v),
{
    let ghost whole = value_view(v);
    match open_value(v) {
        Opened::Null => Json::Null,
        Opened::Bool(b) => Json::Bool(b),
        Opened::Number { unsigned, signed, text } => match unsigned {
            Some(n) => Json::Number(Number::PosInt(n)),
            None => match signed {
                Some(n) => Json::Number(Number::NegInt(n)),
                None => Json::Number(Number::Float(text)),
            },
        },
        Opened::Text(s) => Json::Text(s),
        Opened::Array(items) => {
            let mut out: Vec<Json> = Vec::new();
            let ghost all = items@;
            for x in it: items
                invariant
                    it.seq() == all,
                    out@.len() == it.index(),
                    forall|k: int|
                        0 <= k < it.index() ==> (#[trigger] out@[k])@ == value_view(all[k]),
                    whole == JsonView::Array(all.map_values(|x: serde_json::Value| value_view(x))),
                    whole == value_view(v),
            {
                proof {
                    let mapped = all.map_values(|x: serde_json::Value| value_view(x));
                    assert(whole->Array_0 == mapped);
                    assert(mapped[it.index()] == value_view(x));
                    assert(decreases_to!(whole => mapped[it.index()]));
                }
                out.push(from_value(x));
            }
            let r = Json::Array(out);
            assert(r@->Array_0 =~= whole->Array_0);
            r
        },
        Opened::Object(members) => {
            let mut out: Vec<(String, Json)> = Vec::new();
            let ghost all = members@;
            for m in it: members
                invariant
                    it.seq() == all,
                    out@.len() == it.index(),
                    forall|k: int|
                        0 <= k < it.index() ==> (#[trigger] out@[k]).0@ == all[k].0@ && out@[k].1@
                            == value_view(all[k].1),
                    whole == JsonView::Object(
                        all.map_values(|m: (String, serde_json::Value)| (m.0@, value_view(m.1))),
                    ),
                    whole == value_view(v),
            {
                proof {
                    let mapped = all.map_values(
                        |m: (String, serde_json::Value)| (m.0@, value_view(m.1)),
                    );
                    assert(whole->Object_0 == mapped);
                    assert(mapped[it.index()].1 == value_view(m.1));
                    assert(decreases_to!(whole => mapped[it.index()]));
                    assert(decreases_to!(whole => mapped[it.index()].1));
                }
                out.push((m.0, from_value(m.1)));
            }
            let r = Json::Object(out);
            assert(r@->Object_0 =~= whole->Object_0);
            r
        },
    }
}

/// Reads a JSON text.
pub fn parse(text: &str) -> (r: Result<Json, String>)
    ensures
        match r {
            Ok(j) => parsed(text@) == Ok::<JsonView, Seq<char>>(j@),
            Err(e) => parsed(text@) == Err::<JsonView, Seq<char>>(e@),
        },
{
    match value_from_str(text) {
        Ok(v) => Ok(from_value(v)),
        Err(e) => Err(e),
    }
}

/// Reads the bytes of a JSON text: the document, and its compact text.
pub fn parse_bytes(bytes: &[u8]) -> (r: Result<(Json, String), String>)
    ensures
        match r {
            Ok((j, text)) => parsed_bytes(bytes@) == Ok::<JsonView, Seq<char>>(j@) && text@
                == rendered(j@),
            Err(e) => parsed_bytes(bytes@) == Err::<JsonView, Seq<char>>(e@),
        },
{
    match value_from_slice(bytes) {
        Ok(v) => {
            let text = value_text(&v);
            Ok((from_value(v), text))
        },
        Err(e) => Err(e),
    }
}

// ---------------------------------------------------------------------------
// What holds of every document
// ---------------------------------------------------------------------------

/// A member is found exactly where the object has it, the last of its name where there are
/// several; nothing is found in any other document.
pub proof fn law_members_are_found_by_name(
    members: Seq<(Seq<char>, JsonView)>,
    key: Seq<char>,
    value: JsonView,
)
    ensures
        get(JsonView::Object(members), key) is Some <==> exists|i: int|
            0 <= i < members.len() && (#[trigger] members[i]).0 == key,
        get(JsonView::Object(members), key) == Some(value) <==> exists|i: int|
            {
                &&& 0 <= i < members.len()
                &&& #[trigger] members[i] == (key, value)
                &&& forall|k: int| i < k < members.len() ==> (#[trigger] members[k]).0 != key
            },
        get(JsonView::Object(members.push((key, value))), key) == Some(value),
{
    lemma_position(members, key);
    let more = members.push((key, value));
    assert(more[members.len() as int] == (key, value));
    lemma_position_is(more, key, members.len() as int);
    if exists|i: int|
        0 <= i < members.len() && #[trigger] members[i] == (key, value) && forall|k: int|
            i < k < members.len() ==> (#[trigger] members[k]).0 != key {
        let i = choose|i: int|
            0 <= i < members.len() && #[trigger] members[i] == (key, value) && forall|k: int|
                i < k < members.len() ==> (#[trigger] members[k]).0 != key;
        lemma_position_is(members, key, i);
    }
}

/// Only objects have members, only arrays have items, and only strings, booleans and
/// integers read as such; what reads does so as what it is.
pub proof fn law_documents_read_as_what_they_are(j: JsonView, key: Seq<char>, n: u64, m: i64)
    ensures
        !(j is Object) ==> get(j, key) is None && members(Some(j)).len() == 0,
        !(j is Array) ==> items(Some(j)).len() == 0,
        j is Object ==> members(Some(j)) == j->Object_0,
        j is Array ==> items(Some(j)) == j->Array_0,
        text(Some(j)) == (if j is Text {
            Some(j->Text_0)
        } else {
            None
        }),
        boolean(Some(j)) == (if j is Bool {
            Some(j->Bool_0)
        } else {
            None
        }),
        !(j is Number) ==> as_i64(Some(j)) is None && as_u64(Some(j)) is None,
        as_u64(Some(JsonView::Number(NumberView::PosInt(n)))) == Some(n),
        as_i64(Some(JsonView::Number(NumberView::PosInt(n)))) == (if n <= 0x7fff_ffff_ffff_ffff {
            Some(n as i64)
        } else {
            None
        }),
        as_i64(Some(JsonView::Number(NumberView::NegInt(m)))) == Some(m),
        as_u64(Some(JsonView::Number(NumberView::NegInt(m)))) is None,
        text(None) is None,
        boolean(None) is None,
        as_i64(None) is None,
        as_u64(None) is None,
        items(None).len() == 0,
        members(None).len() == 0,
{
}

/// A path is walked name by name: the empty one leads nowhere further, one name leads to
/// that member, and two paths in a row lead where the second leads from the end of the
/// first.
pub proof fn law_paths_are_walked_name_by_name(
    j: JsonView,
    a: Seq<Seq<char>>,
    b: Seq<Seq<char>>,
    key: Seq<char>,
)
    ensures
        at(j, Seq::empty()) == Some(j),
        at(j, seq![key]) == get(j, key),
        at(j, a + b) == match at(j, a) {
            Some(next) => at(next, b),
            None => None,
        },
    decreases a.len(),
{
    reveal_with_fuel(at, 2);
    assert(seq![key].skip(1) =~= Seq::<Seq<char>>::empty());
    if a.len() == 0 {
        assert(a + b =~= b);
    } else {
        assert((a + b)[0] == a[0]);
        assert((a + b).skip(1) =~= a.skip(1) + b);
        if let Some(next) = get(j, a[0]) {
            law_paths_are_walked_name_by_name(next, a.skip(1), b, key);
        }
    }
}

/// The strings of two lists in a row are those of the first, then those of the second; a
/// single item gives its string, or none where it is something else. The same holds of the
/// members that are strings.
pub proof fn law_strings_are_picked_in_order(
    a: Seq<JsonView>,
    b: Seq<JsonView>,
    one: JsonView,
    m: Seq<(Seq<char>, JsonView)>,
    n: Seq<(Seq<char>, JsonView)>,
    key: Seq<char>,
)
    ensures
        texts(a + b) == texts(a) + texts(b),
        texts(seq![one]) == (if one is Text {
            seq![one->Text_0]
        } else {
            Seq::empty()
        }),
        text_members(m + n) == text_members(m) + text_members(n),
        text_members(seq![(key, one)]) == (if one is Text {
            seq![(key, one->Text_0)]
        } else {
            Seq::empty()
        }),
    decreases b.len(), n.len(),
{
    reveal_with_fuel(texts, 2);
    reveal_with_fuel(text_members, 2);
    assert(seq![one].drop_last() =~= Seq::<JsonView>::empty());
    assert(seq![(key, one)].drop_last() =~= Seq::<(Seq<char>, JsonView)>::empty());
    assert(texts(seq![one]) =~= (if one is Text {
        seq![one->Text_0]
    } else {
        Seq::empty()
    }));
    assert(text_members(seq![(key, one)]) =~= (if one is Text {
        seq![(key, one->Text_0)]
    } else {
        Seq::empty()
    }));
    if b.len() > 0 {
        law_strings_are_picked_in_order(a, b.drop_last(), one, m, n, key);
        assert((a + b).drop_last() =~= a + b.drop_last());
        assert((a + b).last() == b.last());
    } else {
        assert(a + b =~= a);
        if n.len() > 0 {
            law_strings_are_picked_in_order(a, b, one, m, n.drop_last(), key);
            assert((m + n).drop_last() =~= m + n.drop_last());
            assert((m + n).last() == n.last());
        } else {
            assert(m + n =~= m);
        }
    }
    assert(texts(a + b) =~= texts(a) + texts(b));
    assert(text_members(m + n) =~= text_members(m) + text_members(n));
}

/// Setting a member changes that member and no other: it reads back as what it was set to,
/// every other name as before, and nothing is added where the name was there already.
pub proof fn law_setting_changes_one_member(
    m: Seq<(Seq<char>, JsonView)>,
    key: Seq<char>,
    value: JsonView,
    other: Seq<char>,
)
    ensures
        get(JsonView::Object(with_member(m, key, value)), key) == Some(value),
        other != key ==> get(JsonView::Object(with_member(m, key, value)), other) == get(
            JsonView::Object(m),
            other,
        ),
        with_member(m, key, value).len() == m.len() + (if get(JsonView::Object(m), key) is Some {
            0int
        } else {
            1
        }),
        forall|i: int|
            0 <= i < m.len() && (#[trigger] m[i]).0 != key ==> with_member(m, key, value)[i] == m[i],
{
    lemma_with_member(m, key, value, other);
    lemma_position(m, key);
}

/// A document stands for its tree: each part for what it holds, in order.
pub proof fn law_documents_stand_for_their_tree(j: Json, i: int)
    ensures
        match j {
            Json::Null => j@ is Null,
            Json::Bool(b) => j@ == JsonView::Bool(b),
            Json::Number(Number::PosInt(n)) => j@ == JsonView::Number(NumberView::PosInt(n)),
            Json::Number(Number::NegInt(n)) => j@ == JsonView::Number(NumberView::NegInt(n)),
            Json::Number(Number::Float(s)) => j@ == JsonView::Number(NumberView::Float(s@)),
            Json::Text(s) => j@ == JsonView::Text(s@),
            Json::Array(a) => j@ is Array && j@->Array_0.len() == a@.len() && (0 <= i < a@.len()
                ==> j@->Array_0[i] == a@[i]@),
            Json::Object(m) => j@ is Object && j@->Object_0.len() == m@.len() && (0 <= i < m@.len()
                ==> j@->Object_0[i] == (m@[i].0@, m@[i].1@)),
        },
{
}

} // verus!
