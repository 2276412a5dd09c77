//! JSON values as plain data, and the two calls that turn them into text and back.

use vstd::prelude::*;

use crate::hashing::hex_digit;
use crate::text::text_eq;

verus! {

/// A JSON value.
pub enum Json {
    Null,
    Bool(bool),
    /// A number by its decimal text, with its value where it is an integer that fits `i64`.
    Number(String, Option<i64>),
    Text(String),
    Array(Vec<Json>),
    /// The members in the order of the document's map.
    Object(Vec<(String, Json)>),
}

/// What a [`Json`] value stands for.
pub enum JsonView {
    Null,
    Bool(bool),
    Number(Seq<char>, Option<i64>),
    Text(Seq<char>),
    Array(Seq<JsonView>),
    Object(Seq<(Seq<char>, JsonView)>),
}

impl View for Json {
    type V = JsonView;

    open spec fn view(&self) -> JsonView {
        json_view(*self)
    }
}

/// The value that `json` stands for.
pub open spec fn json_view(json: Json) -> JsonView
    decreases json,
{
    match json {
        Json::Null => JsonView::Null,
        Json::Bool(b) => JsonView::Bool(b),
        Json::Number(text, integer) => JsonView::Number(text@, integer),
        Json::Text(text) => JsonView::Text(text@),
        Json::Array(items) => JsonView::Array(
            Seq::new(
                items@.len(),
                |i: int|
                    if 0 <= i < items@.len() {
                        json_view(items@[i])
                    } else {
                        JsonView::Null
                    },
            ),
        ),
        Json::Object(members) => JsonView::Object(
            Seq::new(
                members@.len(),
                |i: int|
                    if 0 <= i < members@.len() {
                        (members@[i].0@, json_view(members@[i].1))
                    } else {
                        (Seq::empty(), JsonView::Null)
                    },
            ),
        ),
    }
}

/// What `serde_json::from_str` makes of a text: the value it reads, or the text of its error.
pub uninterp spec fn json_document(text: Seq<char>) -> Result<JsonView, Seq<char>>;

/// A value of `serde_json`.
#[verifier::external_type_specification]
#[verifier::external_body]
pub struct ExJsonValue(serde_json::Value);

/// Rebuilds a `serde_json::Value` member by member, each variant as the variant of the same
/// kind.
#[verifier::external_body]
fn json_from_value(value: serde_json::Value) -> Json {
    match value {
        serde_json::Value::Null => Json::Null,
        serde_json::Value::Bool(b) => Json::Bool(b),
        serde_json::Value::Number(n) => Json::Number(n.to_string(), n.as_i64()),
        serde_json::Value::String(s) => Json::Text(s),
        serde_json::Value::Array(a) => Json::Array(a.into_iter().map(json_from_value).collect()),
        serde_json::Value::Object(m) => Json::Object(
            m.into_iter().map(|(k, v)| (k, json_from_value(v))).collect(),
        ),
    }
}

/// `serde_json::from_str` on a text: the document as a [`Json`] value, or the message of the
/// error. Both are a function of the text.
#[verifier::external_body]
pub(crate) fn parse_json(text: &str) -> (parsed: Result<Json, String>)
    ensures
        match (parsed, json_document(text@)) {
            (Ok(json), Ok(view)) => json@ == view,
            (Err(message), Err(expected)) => message@ == expected,
            _ => false,
        },
{
    match serde_json::from_str::<serde_json::Value>(text) {
        Ok(value) => Ok(json_from_value(value)),
        Err(error) => Err(error.to_string()),
    }
}

/// How a character stands in a JSON string: quotes, backslashes and control characters are
/// escaped, the latter by a letter where there is one and else by their number.
pub open spec fn escaped_char(c: char) -> Seq<char> {
    if c == '"' || c == '\\' {
        seq!['\\', c]
    } else if c == '\u{8}' {
        seq!['\\', 'b']
    } else if c == '\u{9}' {
        seq!['\\', 't']
    } else if c == '\u{a}' {
        seq!['\\', 'n']
    } else if c == '\u{c}' {
        seq!['\\', 'f']
    } else if c == '\u{d}' {
        seq!['\\', 'r']
    } else if 32 > c as nat {
        seq!['\\', 'u', '0', '0', hex_digit(c as nat / 16), hex_digit(c as nat % 16)]
    } else {
        seq![c]
    }
}

/// A text as a JSON string, between quotes. See [`escaped_char`].
pub open spec fn json_string(text: Seq<char>) -> Seq<char> {
    seq!['"'] + text.map_values(|c: char| escaped_char(c)).flatten() + seq!['"']
}

/// `to_string` of a string value of `serde_json`: the text between quotes, with the characters
/// escaped that JSON asks to be. See [`json_string`].
#[verifier::external_body]
pub(crate) fn quote_json(text: &str) -> (quoted: String)
    ensures
        quoted@ == json_string(text@),
{
    serde_json::Value::String(text.to_string()).to_string()
}

/// The first member from `i` on with the given key.
pub open spec fn find_member(
    members: Seq<(Seq<char>, JsonView)>,
    key: Seq<char>,
    i: nat,
) -> Option<JsonView>
    decreases members.len() - i,
{
    if i >= members.len() {
        None
    } else if members[i as int].0 == key {
        Some(members[i as int].1)
    } else {
        find_member(members, key, i + 1)
    }
}

/// The member of an object with the given key.
pub open spec fn member_of(json: JsonView, key: Seq<char>) -> Option<JsonView> {
    match json {
        JsonView::Object(members) => find_member(members, key, 0),
        _ => None,
    }
}

/// The member `b` of the member `a` of an object.
pub open spec fn member_at(json: JsonView, a: Seq<char>, b: Seq<char>) -> Option<JsonView> {
    match member_of(json, a) {
        Some(inner) => member_of(inner, b),
        None => None,
    }
}

/// The string that a value is.
pub open spec fn string_of(json: Option<JsonView>) -> Option<Seq<char>> {
    match json {
        Some(JsonView::Text(t)) => Some(t),
        _ => None,
    }
}

/// The items of the array that a value is.
pub open spec fn items_of(json: Option<JsonView>) -> Option<Seq<JsonView>> {
    match json {
        Some(JsonView::Array(items)) => Some(items),
        _ => None,
    }
}

/// What a list of values stands for.
pub open spec fn jsons_view(items: Seq<Json>) -> Seq<JsonView> {
    items.map_values(|j: Json| j@)
}

impl Json {
    /// See [`member_of`].
    pub fn member(&self, key: &str) -> (found: Option<&Json>)
        ensures
            match found {
                Some(j) => member_of(self@, key@) == Some(j@),
                None => member_of(self@, key@) is None,
            },
    {
        match self {
            Json::Object(members) => {
                let ghost view = match self@ {
                    JsonView::Object(m) => m,
                    _ => Seq::empty(),
                };
                let mut i: usize = 0;
                while i < members.len()
                    invariant
                        i <= members.len(),
                        self@ == JsonView::Object(view),
                        view.len() == members.len(),
                        forall|j: int|
                            0 <= j < members.len() ==> #[trigger] view[j] == (
                                members[j].0@,
                                members[j].1@,
                            ),
                        find_member(view, key@, 0) == find_member(view, key@, i as nat),
                    decreases members.len() - i,
                {
                    assert(view[i as int] == (members[i as int].0@, members[i as int].1@));
                    if text_eq(members[i].0.as_str(), key) {
                        return Some(&members[i].1);
                    }
                    i = i + 1;
                }
                None
            },
            _ => None,
        }
    }

    /// See [`member_at`].
    pub fn member_in(&self, a: &str, b: &str) -> (found: Option<&Json>)
        ensures
            match found {
                Some(j) => member_at(self@, a@, b@) == Some(j@),
                None => member_at(self@, a@, b@) is None,
            },
    {
        match self.member(a) {
            Some(inner) => inner.member(b),
            None => None,
        }
    }

    /// The string that the value is.
    pub fn as_text(&self) -> (t: Option<&String>)
        ensures
            match t {
                Some(s) => self@ == JsonView::Text(s@),
                None => !(self@ is Text),
            },
    {
        match self {
            Json::Text(t) => Some(t),
            _ => None,
        }
    }

    /// The truth value that the value is.
    pub fn as_truth(&self) -> (b: Option<bool>)
        ensures
            match b {
                Some(x) => self@ == JsonView::Bool(x),
                None => !(self@ is Bool),
            },
    {
        match self {
            Json::Bool(b) => Some(*b),
            _ => None,
        }
    }

    /// The items of the array that the value is.
    pub fn as_items(&self) -> (items: Option<&Vec<Json>>)
        ensures
            match items {
                Some(v) => self@ == JsonView::Array(jsons_view(v@)),
                None => !(self@ is Array),
            },
    {
        match self {
            Json::Array(items) => {
                proof {
                    match self@ {
                        JsonView::Array(view) => {
                            assert(view =~= jsons_view(items@));
                        },
                        _ => {},
                    }
                }
                Some(items)
            },
            _ => None,
        }
    }

    /// A copy of the value.
    pub fn copy(&self) -> (c: Json)
        ensures
            c@ == self@,
        decreases self,
    {
        match self {
            Json::Null => Json::Null,
            Json::Bool(b) => Json::Bool(*b),
            Json::Number(t, n) => Json::Number(t.clone(), *n),
            Json::Text(t) => Json::Text(t.clone()),
            Json::Array(items) => {
                let mut out: Vec<Json> = Vec::new();
                let mut i: usize = 0;
                while i < items.len()
                    invariant
                        *self == Json::Array(*items),
                        i <= items.len(),
                        out.len() == i,
                        forall|j: int| 0 <= j < i ==> (#[trigger] out[j])@ == items[j]@,
                    decreases items.len() - i,
                {
                    assert(decreases_to!(*self => self->Array_0));
                    assert(decreases_to!(self->Array_0@ => self->Array_0@[i as int]));
                    let item = items[i].copy();
                    out.push(item);
                    i = i + 1;
                }
                let c = Json::Array(out);
                proof {
                    if let (JsonView::Array(a), JsonView::Array(b)) = (c@, self@) {
                        assert(a =~= b);
                    }
                }
                c
            },
            Json::Object(members) => {
                let mut out: Vec<(String, Json)> = Vec::new();
                let mut i: usize = 0;
                while i < members.len()
                    invariant
                        *self == Json::Object(*members),
                        i <= members.len(),
                        out.len() == i,
                        forall|j: int|
                            0 <= j < i ==> (#[trigger] out[j]).0@ == members[j].0@ && out[j].1@
                                == members[j].1@,
                    decreases members.len() - i,
                {
                    assert(decreases_to!(*self => self->Object_0));
                    assert(decreases_to!(self->Object_0@ => self->Object_0@[i as int]));
                    assert(decreases_to!(self->Object_0@[i as int] => self->Object_0@[i as int].1));
                    let value = members[i].1.copy();
                    out.push((members[i].0.clone(), value));
                    i = i + 1;
                }
                let c = Json::Object(out);
                proof {
                    if let (JsonView::Object(a), JsonView::Object(b)) = (c@, self@) {
                        assert(a =~= b);
                    }
                }
                c
            },
        }
    }

    /// The compact text of the value. See [`json_rendered`].
    pub fn render(&self) -> (t: String)
        ensures
            t@ == json_rendered(self@),
        decreases self,
    {
        match self {
            Json::Null => "null".to_string(),
            Json::Bool(b) => if *b {
                "true".to_string()
            } else {
                "false".to_string()
            },
            Json::Number(t, _) => t.clone(),
            Json::Text(t) => quote_json(t.as_str()),
            Json::Array(items) => {
                let ghost view = match self@ {
                    JsonView::Array(a) => a,
                    _ => Seq::empty(),
                };
                let mut out = "[".to_string();
                let mut i: usize = 0;
                assert(out@ =~= "["@ + rendered_items(view, 0));
                while i < items.len()
                    invariant
                        *self == Json::Array(*items),
                        self@ == JsonView::Array(view),
                        view.len() == items.len(),
                        i <= items.len(),
                        out@ == "["@ + rendered_items(view, i as nat),
                    decreases items.len() - i,
                {
                    assert(view[i as int] == items[i as int]@);
                    let ghost before = rendered_items(view, i as nat);
                    if i > 0 {
                        out.append(",");
                    }
                    let item = items[i].render();
                    out.append(item.as_str());
                    assert(out@ =~= "["@ + rendered_items(view, (i + 1) as nat));
                    i = i + 1;
                }
                out.append("]");
                out
            },
            Json::Object(members) => {
                let ghost view = match self@ {
                    JsonView::Object(m) => m,
                    _ => Seq::empty(),
                };
                let mut out = "{".to_string();
                let mut i: usize = 0;
                assert(out@ =~= "{"@ + rendered_members(view, 0));
                while i < members.len()
                    invariant
                        *self == Json::Object(*members),
                        self@ == JsonView::Object(view),
                        view.len() == members.len(),
                        i <= members.len(),
                        out@ == "{"@ + rendered_members(view, i as nat),
                    decreases members.len() - i,
                {
                    assert(view[i as int] == (members[i as int].0@, members[i as int].1@));
                    if i > 0 {
                        out.append(",");
                    }
                    let key = quote_json(members[i].0.as_str());
                    let value = members[i].1.render();
                    out.append(key.as_str());
                    out.append(":");
                    out.append(value.as_str());
                    assert(out@ =~= "{"@ + rendered_members(view, (i + 1) as nat));
                    i = i + 1;
                }
                out.append("}");
                out
            },
        }
    }
}

/// The compact text of a value.
pub open spec fn json_rendered(json: JsonView) -> Seq<char>
    decreases json, 0nat,
{
    match json {
        JsonView::Null => "null"@,
        JsonView::Bool(b) => if b {
            "true"@
        } else {
            "false"@
        },
        JsonView::Number(t, _) => t,
        JsonView::Text(t) => json_string(t),
        JsonView::Array(items) => "["@ + rendered_items(items, items.len()) + "]"@,
        JsonView::Object(members) => "{"@ + rendered_members(members, members.len()) + "}"@,
    }
}

/// The texts of the first `n` items, with commas between them.
pub open spec fn rendered_items(items: Seq<JsonView>, n: nat) -> Seq<char>
    decreases items, n,
{
    if n == 0 || n > items.len() {
        Seq::empty()
    } else if n == 1 {
        json_rendered(items[0])
    } else {
        rendered_items(items, (n - 1) as nat) + ","@ + json_rendered(items[n - 1])
    }
}

/// The texts of the first `n` members, with commas between them.
pub open spec fn rendered_members(members: Seq<(Seq<char>, JsonView)>, n: nat) -> Seq<char>
    decreases members, n,
{
    if n == 0 || n > members.len() {
        Seq::empty()
    } else {
        let m = json_string(members[n - 1].0) + ":"@ + json_rendered(members[n - 1].1);
        if n == 1 {
            m
        } else {
            rendered_members(members, (n - 1) as nat) + ","@ + m
        }
    }
}

/// The text of a list is the texts of its items with commas between them, in brackets; that of an
/// object is its members with commas between them, in braces, each its key in quotes, a colon and
/// its value.
pub proof fn rendering_goes_item_by_item(
    items: Seq<JsonView>,
    members: Seq<(Seq<char>, JsonView)>,
    n: nat,
)
    ensures
        json_rendered(JsonView::Array(items)) == "["@ + rendered_items(items, items.len()) + "]"@,
        json_rendered(JsonView::Object(members)) == "{"@ + rendered_members(
            members,
            members.len(),
        ) + "}"@,
        n < items.len() ==> rendered_items(items, n + 1) == rendered_items(items, n) + (if n == 0 {
            Seq::empty()
        } else {
            ","@
        }) + json_rendered(items[n as int]),
        n < members.len() ==> rendered_members(members, n + 1) == rendered_members(members, n) + (
        if n == 0 {
            Seq::empty()
        } else {
            ","@
        }) + json_string(members[n as int].0) + ":"@ + json_rendered(members[n as int].1),
{
    if n < items.len() {
        assert(rendered_items(items, n + 1) =~= rendered_items(items, n) + (if n == 0 {
            Seq::empty()
        } else {
            ","@
        }) + json_rendered(items[n as int]));
    }
    if n < members.len() {
        assert(rendered_members(members, n + 1) =~= rendered_members(members, n) + (if n == 0 {
            Seq::empty()
        } else {
            ","@
        }) + json_string(members[n as int].0) + ":"@ + json_rendered(members[n as int].1));
    }
}

/// The text of a value that holds no others.
pub proof fn plain_values_are_rendered_as_they_are(t: Seq<char>, k: Option<i64>)
    ensures
        json_rendered(JsonView::Null) == "null"@,
        json_rendered(JsonView::Bool(true)) == "true"@,
        json_rendered(JsonView::Bool(false)) == "false"@,
        json_rendered(JsonView::Number(t, k)) == t,
        json_rendered(JsonView::Text(t)) == json_string(t),
{
}

} // verus!
