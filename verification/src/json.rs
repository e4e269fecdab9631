//! JSON values: the documents that the server answers with and that the
//! library builds for it, with their model and the object operations.
use vstd::prelude::*;
use crate::text::views;

verus! {

/// A JSON document as the library reads and builds it.
#[derive(Debug, PartialEq)]
pub enum JsonValue {
    Null,
    Bool(bool),
    /// A number, kept in its textual form.
    Number(String),
    Str(String),
    Array(Vec<JsonValue>),
    /// The members of an object, in order.
    Object(Vec<(String, JsonValue)>),
}

/// The mathematical model of a [`JsonValue`].
pub enum JsonView {
    Null,
    Bool(bool),
    Number(Seq<char>),
    Str(Seq<char>),
    Array(Seq<JsonView>),
    Object(Seq<(Seq<char>, JsonView)>),
}

impl JsonValue {
    /// The model of the value: each string taken by its characters.
    pub open spec fn view(self) -> JsonView
        decreases self,
    {
        match self {
            JsonValue::Null => JsonView::Null,
            JsonValue::Bool(b) => JsonView::Bool(b),
            JsonValue::Number(n) => JsonView::Number(n@),
            JsonValue::Str(s) => JsonView::Str(s@),
            JsonValue::Array(items) => JsonView::Array(
                Seq::new(
                    items@.len(),
                    |i: int|
                        if 0 <= i < items@.len() {
                            items@[i].view()
                        } else {
                            JsonView::Null
                        },
                ),
            ),
            JsonValue::Object(fields) => JsonView::Object(
                Seq::new(
                    fields@.len(),
                    |i: int|
                        if 0 <= i < fields@.len() {
                            (fields@[i].0@, fields@[i].1.view())
                        } else {
                            (Seq::empty(), JsonView::Null)
                        },
                ),
            ),
        }
    }
}

/// The model of each member of an object.
pub open spec fn members_view(fields: Seq<(String, JsonValue)>) -> Seq<(Seq<char>, JsonView)> {
    Seq::new(fields.len(), |i: int| (fields[i].0@, fields[i].1.view()))
}

/// The model of each element of an array.
pub open spec fn items_view(items: Seq<JsonValue>) -> Seq<JsonView> {
    Seq::new(items.len(), |i: int| items[i].view())
}

/// The model of an object is the model of its members.
pub proof fn lemma_object_view(fields: Vec<(String, JsonValue)>)
    ensures
        JsonValue::Object(fields).view() == JsonView::Object(members_view(fields@)),
{
    assert(JsonValue::Object(fields).view()->Object_0 =~= members_view(fields@));
}

/// The model of an array is the model of its elements.
pub proof fn lemma_array_view(items: Vec<JsonValue>)
    ensures
        JsonValue::Array(items).view() == JsonView::Array(items_view(items@)),
{
    assert(JsonValue::Array(items).view()->Array_0 =~= items_view(items@));
}

/// The value of the first member named `key`. Members are kept in the order
/// they were read or added; where the keys are distinct, as in any parsed
/// document, this is the value of the member named `key`, wherever it stands.
pub open spec fn member_of(fields: Seq<(Seq<char>, JsonView)>, key: Seq<char>) -> Option<JsonView>
    decreases fields.len(),
{
    if fields.len() == 0 {
        None
    } else if fields[0].0 == key {
        Some(fields[0].1)
    } else {
        member_of(fields.drop_first(), key)
    }
}

/// The members after setting member `key` to `value`: the first member named
/// `key` takes the new value in its place, or the member is added at the end.
/// The members are kept in order; lookups by key do not depend on it.
pub open spec fn with_member(fields: Seq<(Seq<char>, JsonView)>, key: Seq<char>, value: JsonView) -> Seq<
    (Seq<char>, JsonView),
>
    decreases fields.len(),
{
    if fields.len() == 0 {
        seq![(key, value)]
    } else if fields[0].0 == key {
        seq![(key, value)] + fields.drop_first()
    } else {
        seq![fields[0]] + with_member(fields.drop_first(), key, value)
    }
}

impl JsonView {
    /// The value of member `key` of an object; `None` for any other value.
    pub open spec fn get(self, key: Seq<char>) -> Option<JsonView> {
        match self {
            JsonView::Object(fields) => member_of(fields, key),
            _ => None,
        }
    }

    /// Whether member `key` of this object is a string.
    pub open spec fn has_str(self, key: Seq<char>) -> bool {
        self.get(key) matches Some(JsonView::Str(_))
    }

    /// The text of member `key`, where it is a string.
    pub open spec fn str_member(self, key: Seq<char>) -> Seq<char> {
        self.get(key)->0->Str_0
    }
}

/// The position of the first member named `key`.
fn find_member(fields: &Vec<(String, JsonValue)>, key: &str) -> (r: Option<usize>)
    ensures
        match r {
            Some(i) => i < fields@.len() && fields@[i as int].0@ == key@ && forall|j: int|
                0 <= j < i ==> fields@[j].0@ != key@,
            None => forall|j: int| 0 <= j < fields@.len() ==> fields@[j].0@ != key@,
        },
{
    let n = fields.len();
    let mut i: usize = 0;
    while i < n
        invariant
            i <= n,
            n == fields@.len(),
            forall|j: int| 0 <= j < i ==> fields@[j].0@ != key@,
        decreases n - i,
    {
        if crate::text::str_eq(fields[i].0.as_str(), key) {
            return Some(i);
        }
        i += 1;
    }
    None
}

/// Where member `i` is the first named `key`: `member_of` finds it, and
/// `with_member` replaces it.
pub proof fn lemma_first_member(
    fields: Seq<(Seq<char>, JsonView)>,
    key: Seq<char>,
    value: JsonView,
    i: int,
)
    requires
        0 <= i < fields.len(),
        fields[i].0 == key,
        forall|j: int| 0 <= j < i ==> fields[j].0 != key,
    ensures
        member_of(fields, key) == Some(fields[i].1),
        with_member(fields, key, value) == fields.update(i, (key, value)),
    decreases fields.len(),
{
    if i > 0 {
        let rest = fields.drop_first();
        assert forall|j: int| 0 <= j < i - 1 implies rest[j].0 != key by {
            assert(rest[j] == fields[j + 1]);
        }
        lemma_first_member(rest, key, value, i - 1);
        assert(with_member(fields, key, value) =~= fields.update(i, (key, value)));
    } else {
        assert(with_member(fields, key, value) =~= fields.update(i, (key, value)));
    }
}

/// Where no member is named `key`: `member_of` finds nothing, and
/// `with_member` appends.
pub proof fn lemma_absent_member(fields: Seq<(Seq<char>, JsonView)>, key: Seq<char>, value: JsonView)
    requires
        forall|j: int| 0 <= j < fields.len() ==> fields[j].0 != key,
    ensures
        member_of(fields, key) is None,
        with_member(fields, key, value) == fields.push((key, value)),
    decreases fields.len(),
{
    if fields.len() > 0 {
        let rest = fields.drop_first();
        assert forall|j: int| 0 <= j < rest.len() implies rest[j].0 != key by {
            assert(rest[j] == fields[j + 1]);
        }
        lemma_absent_member(rest, key, value);
        assert(with_member(fields, key, value) =~= fields.push((key, value)));
    } else {
        assert(with_member(fields, key, value) =~= fields.push((key, value)));
    }
}

/// The value of the first member of `fields` named `key`.
pub fn get_member<'a>(fields: &'a Vec<(String, JsonValue)>, key: &str) -> (r: Option<&'a JsonValue>)
    ensures
        r is Some <==> member_of(members_view(fields@), key@) is Some,
        r matches Some(v) ==> member_of(members_view(fields@), key@) == Some(v.view()),
{
    let ghost mv = members_view(fields@);
    match find_member(fields, key) {
        Some(i) => {
            proof {
                lemma_first_member(mv, key@, JsonView::Null, i as int);
            }
            Some(&fields[i].1)
        },
        None => {
            proof {
                lemma_absent_member(mv, key@, JsonView::Null);
            }
            None
        },
    }
}

/// Sets member `key` of `fields` to `value`: the first member named `key`
/// takes it, or the member is added at the end.
pub fn insert_member(fields: &mut Vec<(String, JsonValue)>, key: String, value: JsonValue)
    ensures
        members_view(final(fields)@) == with_member(members_view(old(fields)@), key@, value.view()),
{
    let ghost mv = members_view(fields@);
    let ghost k = key@;
    let ghost v = value.view();
    match find_member(fields, key.as_str()) {
        Some(i) => {
            proof {
                lemma_first_member(mv, k, v, i as int);
            }
            fields.set(i, (key, value));
            assert(members_view(fields@) =~= mv.update(i as int, (k, v)));
        },
        None => {
            proof {
                lemma_absent_member(mv, k, v);
            }
            fields.push((key, value));
            assert(members_view(fields@) =~= mv.push((k, v)));
        },
    }
}


/// Setting one member leaves the value of every other member as it was.
pub proof fn lemma_other_member_unchanged(
    fields: Seq<(Seq<char>, JsonView)>,
    key: Seq<char>,
    value: JsonView,
    other: Seq<char>,
)
    requires
        key != other,
    ensures
        member_of(with_member(fields, key, value), other) == member_of(fields, other),
    decreases fields.len(),
{
    let w = with_member(fields, key, value);
    if fields.len() == 0 {
        assert(w == seq![(key, value)]);
        assert(w[0].0 != other);
        assert(w.drop_first() =~= Seq::<(Seq<char>, JsonView)>::empty());
        assert(member_of(w, other) == member_of(w.drop_first(), other));
    } else {
        let rest = fields.drop_first();
        if fields[0].0 == key {
            assert(w == seq![(key, value)] + rest);
            assert(w[0] == (key, value));
            assert(w.drop_first() =~= rest);
            assert(member_of(w, other) == member_of(rest, other));
        } else {
            lemma_other_member_unchanged(rest, key, value, other);
            assert(w == seq![fields[0]] + with_member(rest, key, value));
            assert(w[0] == fields[0]);
            assert(w.drop_first() =~= with_member(rest, key, value));
        }
    }
}

/// After setting member `key`, it has the value it was set to.
pub proof fn lemma_member_set(fields: Seq<(Seq<char>, JsonView)>, key: Seq<char>, value: JsonView)
    ensures
        member_of(with_member(fields, key, value), key) == Some(value),
    decreases fields.len(),
{
    let w = with_member(fields, key, value);
    if fields.len() == 0 {
        assert(w[0] == (key, value));
    } else if fields[0].0 == key {
        assert(w[0] == (key, value));
    } else {
        let rest = fields.drop_first();
        lemma_member_set(rest, key, value);
        assert(w[0] == fields[0]);
        assert(w.drop_first() =~= with_member(rest, key, value));
    }
}

/// Whether every value is a string.
pub open spec fn all_strs(items: Seq<JsonView>) -> bool {
    forall|i: int| 0 <= i < items.len() ==> items[i] is Str
}

/// The texts of string values.
pub open spec fn str_texts(items: Seq<JsonView>) -> Seq<Seq<char>> {
    items.map_values(|x: JsonView| x->Str_0)
}

/// Whether every element of `items` is a string.
pub fn are_all_strs(items: &Vec<JsonValue>) -> (r: bool)
    ensures
        r == all_strs(items_view(items@)),
{
    let n = items.len();
    let mut i: usize = 0;
    while i < n
        invariant
            i <= n,
            n == items@.len(),
            forall|j: int| 0 <= j < i ==> items_view(items@)[j] is Str,
        decreases n - i,
    {
        match &items[i] {
            JsonValue::Str(_) => {},
            _ => {
                assert(!(items_view(items@)[i as int] is Str));
                return false;
            },
        }
        i += 1;
    }
    true
}

/// The texts of the string elements of `items`.
pub fn string_texts(items: &Vec<JsonValue>) -> (r: Vec<String>)
    requires
        all_strs(items_view(items@)),
    ensures
        views(r@) == str_texts(items_view(items@)),
{
    let n = items.len();
    let mut r: Vec<String> = Vec::new();
    let mut i: usize = 0;
    while i < n
        invariant
            i <= n,
            n == items@.len(),
            all_strs(items_view(items@)),
            r@.len() == i,
            views(r@) == str_texts(items_view(items@)).take(i as int),
        decreases n - i,
    {
        assert(items_view(items@)[i as int] is Str);
        match &items[i] {
            JsonValue::Str(s) => {
                r.push(s.clone());
            },
            _ => {},
        }
        assert(views(r@) =~= str_texts(items_view(items@)).take(i + 1));
        i += 1;
    }
    assert(str_texts(items_view(items@)).take(n as int) =~= str_texts(items_view(items@)));
    r
}

/// The text of member `key` of `fields`, where that member is a string.
pub fn get_str<'a>(fields: &'a Vec<(String, JsonValue)>, key: &str) -> (r: Option<&'a String>)
    ensures
        r is Some <==> member_of(members_view(fields@), key@) matches Some(JsonView::Str(_)),
        r matches Some(s) ==> member_of(members_view(fields@), key@) == Some(JsonView::Str(s@)),
{
    match get_member(fields, key) {
        Some(JsonValue::Str(s)) => Some(s),
        _ => None,
    }
}


/// A JSON document as serde_json parses it.
#[verifier::external_type_specification]
#[verifier::external_body]
pub struct ExJsonDocument(serde_json::Value);

/// Why serde_json refused a text.
#[verifier::external_type_specification]
#[verifier::external_body]
pub struct ExJsonError(serde_json::Error);

/// The document that `serde_json::from_str::<serde_json::Value>` reads from
/// `text`, or `None` where it refuses the text: numbers are kept as serde_json
/// writes them, and the members of each object in the order of its map.
pub uninterp spec fn parsed_json(text: Seq<char>) -> Option<JsonView>;

/// The library's copy of a document that serde_json parsed: each value
/// moved into the variant of the same kind, numbers by their text, object
/// members in the order the map hands them out. Nothing is stated of it;
/// `parse_json` states what the whole parse gives.
#[verifier::external_body]
fn from_document(v: serde_json::Value) -> JsonValue {
    match v {
        serde_json::Value::Null => JsonValue::Null,
        serde_json::Value::Bool(b) => JsonValue::Bool(b),
        serde_json::Value::Number(n) => JsonValue::Number(n.to_string()),
        serde_json::Value::String(s) => JsonValue::Str(s),
        serde_json::Value::Array(items) => JsonValue::Array(items.into_iter().map(from_document).collect()),
        serde_json::Value::Object(map) => JsonValue::Object(
            map.into_iter().map(|(k, v)| (k, from_document(v))).collect(),
        ),
    }
}

/// Parses `text` with `serde_json::from_str::<serde_json::Value>`. Claimed of
/// it: the outcome is `parsed_json(text)`, a function of the text alone, with
/// serde_json's error where it refuses the text. What serde_json accepts and
/// how it reads it is not stated.
#[verifier::external_body]
pub(crate) fn parse_json(text: &str) -> (r: Result<JsonValue, serde_json::Error>)
    ensures
        r is Ok <==> parsed_json(text@) is Some,
        r matches Ok(v) ==> parsed_json(text@) == Some(v.view()),
{
    match serde_json::from_str::<serde_json::Value>(text) {
        Ok(v) => Ok(from_document(v)),
        Err(e) => Err(e),
    }
}

} // verus!
