//! JSON documents, as far as an import reads them.

use crate::lists::views;
use crate::text::outcome;
use vstd::prelude::*;

verus! {

/// A JSON value. A number holds its value where that is an unsigned 64-bit
/// integer.
pub enum Json {
    Null,
    Bool(bool),
    Number(Option<u64>),
    Text(String),
    List(Vec<Json>),
    Object(Vec<Member>),
}

/// A member of a JSON object.
pub struct Member {
    pub key: String,
    pub value: Json,
}

/// A JSON value as a mathematical value.
pub enum JsonView {
    Null,
    Bool(bool),
    Number(Option<u64>),
    Text(Seq<char>),
    List(Seq<JsonView>),
    Object(Seq<(Seq<char>, JsonView)>),
}

/// What a JSON value stands for.
pub open spec fn json_view(j: Json) -> JsonView
    decreases j, 0nat,
{
    match j {
        Json::Null => JsonView::Null,
        Json::Bool(b) => JsonView::Bool(b),
        Json::Number(n) => JsonView::Number(n),
        Json::Text(s) => JsonView::Text(s@),
        Json::List(items) => JsonView::List(list_view(items@, items@.len())),
        Json::Object(members) => JsonView::Object(object_view(members@, members@.len())),
    }
}

/// What the first `n` items of a JSON list stand for.
pub open spec fn list_view(items: Seq<Json>, n: nat) -> Seq<JsonView>
    decreases items, n,
{
    if n == 0 || n > items.len() {
        Seq::empty()
    } else {
        list_view(items, (n - 1) as nat).push(json_view(items[n - 1]))
    }
}

/// What the first `n` members of a JSON object stand for.
pub open spec fn object_view(members: Seq<Member>, n: nat) -> Seq<(Seq<char>, JsonView)>
    decreases members, n,
{
    if n == 0 || n > members.len() {
        Seq::empty()
    } else {
        object_view(members, (n - 1) as nat).push(
            (members[n - 1].key@, json_view(members[n - 1].value)),
        )
    }
}

impl View for Json {
    type V = JsonView;

    open spec fn view(&self) -> JsonView {
        json_view(*self)
    }
}

impl View for Member {
    type V = (Seq<char>, JsonView);

    open spec fn view(&self) -> (Seq<char>, JsonView) {
        (self.key@, self.value@)
    }
}

/// A list stands for what its items stand for.
pub proof fn lemma_list(j: Json)
    ensures
        j matches Json::List(items) ==> j@ == JsonView::List(views(items@)),
{
    reveal_with_fuel(json_view, 2);
    if let Json::List(items) = j {
        lemma_list_view(items@, items@.len());
        assert(views(items@) =~= list_view(items@, items@.len()));
    }
}

proof fn lemma_list_view(items: Seq<Json>, n: nat)
    requires
        n <= items.len(),
    ensures
        list_view(items, n).len() == n,
        forall|i: int| 0 <= i < n ==> #[trigger] list_view(items, n)[i] == items[i]@,
    decreases n,
{
    if n > 0 {
        lemma_list_view(items, (n - 1) as nat);
    }
}

/// An object stands for what its members stand for.
pub proof fn lemma_object(j: Json)
    ensures
        j matches Json::Object(members) ==> j@ == JsonView::Object(views(members@)),
{
    reveal_with_fuel(json_view, 2);
    if let Json::Object(members) = j {
        lemma_object_view(members@, members@.len());
        assert(views(members@) =~= object_view(members@, members@.len()));
    }
}

proof fn lemma_object_view(members: Seq<Member>, n: nat)
    requires
        n <= members.len(),
    ensures
        object_view(members, n).len() == n,
        forall|i: int| 0 <= i < n ==> #[trigger] object_view(members, n)[i] == members[i]@,
    decreases n,
{
    if n > 0 {
        lemma_object_view(members, (n - 1) as nat);
    }
}

/// The value of the first member with a key.
pub open spec fn member(members: Seq<(Seq<char>, JsonView)>, key: Seq<char>) -> Option<JsonView>
    decreases members.len(),
{
    if members.len() == 0 {
        None
    } else if members[0].0 == key {
        Some(members[0].1)
    } else {
        member(members.drop_first(), key)
    }
}

impl JsonView {
    /// The value under a key; none in a value that is no object.
    pub open spec fn get(self, key: Seq<char>) -> Option<JsonView> {
        match self {
            JsonView::Object(members) => member(members, key),
            _ => None,
        }
    }

    /// The value as an unsigned 64-bit integer.
    pub open spec fn as_u64(self) -> Option<u64> {
        match self {
            JsonView::Number(n) => n,
            _ => None,
        }
    }

    /// The value as a truth value.
    pub open spec fn as_bool(self) -> Option<bool> {
        match self {
            JsonView::Bool(b) => Some(b),
            _ => None,
        }
    }

    /// The value as a text.
    pub open spec fn as_text(self) -> Option<Seq<char>> {
        match self {
            JsonView::Text(s) => Some(s),
            _ => None,
        }
    }

    /// The value as a list.
    pub open spec fn as_list(self) -> Option<Seq<JsonView>> {
        match self {
            JsonView::List(items) => Some(items),
            _ => None,
        }
    }

    /// The value as an object.
    pub open spec fn as_object(self) -> Option<Seq<(Seq<char>, JsonView)>> {
        match self {
            JsonView::Object(members) => Some(members),
            _ => None,
        }
    }

    /// The unsigned integer under a key.
    pub open spec fn u64_at(self, key: Seq<char>) -> Option<u64> {
        match self.get(key) {
            Some(value) => value.as_u64(),
            None => None,
        }
    }

    /// The truth value under a key, false where there is none.
    pub open spec fn flag_at(self, key: Seq<char>) -> bool {
        match self.get(key) {
            Some(value) => value.as_bool() == Some(true),
            None => false,
        }
    }

    /// The text under a key.
    pub open spec fn text_at(self, key: Seq<char>) -> Option<Seq<char>> {
        match self.get(key) {
            Some(value) => value.as_text(),
            None => None,
        }
    }

    /// The items of the list under a key; none where there is no list.
    pub open spec fn items_at(self, key: Seq<char>) -> Seq<JsonView> {
        match self.get(key) {
            Some(JsonView::List(items)) => items,
            _ => Seq::empty(),
        }
    }
}

/// Whether an optional reference holds what a specification says.
pub open spec fn agrees<T: View>(found: Option<&T>, expected: Option<T::V>) -> bool {
    match expected {
        Some(value) => found matches Some(r) && r@ == value,
        None => found is None,
    }
}

impl Json {
    /// The value under a key.
    pub fn get(&self, key: &str) -> (r: Option<&Json>)
        ensures
            agrees(r, self@.get(key@)),
    {
        match self {
            Json::Object(members) => {
                proof {
                    lemma_object(*self);
                }
                let wanted: String = String::from_str(key);
                let ghost all = views(members@);
                let mut i: usize = 0;
                assert(all.skip(0) =~= all);
                while i < members.len()
                    invariant
                        i <= members@.len(),
                        all == views(members@),
                        wanted@ == key@,
                        member(all, key@) == member(all.skip(i as int), key@),
                        self@ == JsonView::Object(all),
                    decreases members.len() - i,
                {
                    assert(all[i as int] == members@[i as int]@);
                    assert(all.skip(i as int).drop_first() =~= all.skip(i + 1));
                    if members[i].key == wanted {
                        return Some(&members[i].value);
                    }
                    i += 1;
                }
                None
            },
            _ => None,
        }
    }

    /// The value as an unsigned 64-bit integer.
    pub fn as_u64(&self) -> (r: Option<u64>)
        ensures
            r == self@.as_u64(),
    {
        match self {
            Json::Number(n) => *n,
            _ => None,
        }
    }

    /// The value as a truth value.
    pub fn as_bool(&self) -> (r: Option<bool>)
        ensures
            r == self@.as_bool(),
    {
        match self {
            Json::Bool(b) => Some(*b),
            _ => None,
        }
    }

    /// The value as a text.
    pub fn as_text(&self) -> (r: Option<&String>)
        ensures
            agrees(r, self@.as_text()),
    {
        match self {
            Json::Text(s) => Some(s),
            _ => None,
        }
    }

    /// The value as a list.
    pub fn as_list(&self) -> (r: Option<&Vec<Json>>)
        ensures
            match self@.as_list() {
                Some(items) => r matches Some(found) && views(found@) == items,
                None => r is None,
            },
    {
        match self {
            Json::List(items) => {
                proof {
                    lemma_list(*self);
                }
                Some(items)
            },
            _ => None,
        }
    }

    /// The value as an object.
    pub fn as_object(&self) -> (r: Option<&Vec<Member>>)
        ensures
            match self@.as_object() {
                Some(members) => r matches Some(found) && views(found@) == members,
                None => r is None,
            },
    {
        match self {
            Json::Object(members) => {
                proof {
                    lemma_object(*self);
                }
                Some(members)
            },
            _ => None,
        }
    }

    /// The unsigned integer under a key.
    pub fn u64_at(&self, key: &str) -> (r: Option<u64>)
        ensures
            r == self@.u64_at(key@),
    {
        match self.get(key) {
            Some(value) => value.as_u64(),
            None => None,
        }
    }

    /// The truth value under a key, false where there is none.
    pub fn flag_at(&self, key: &str) -> (r: bool)
        ensures
            r == self@.flag_at(key@),
    {
        match self.get(key) {
            Some(value) => match value.as_bool() {
                Some(b) => b,
                None => false,
            },
            None => false,
        }
    }

    /// The text under a key.
    pub fn text_at(&self, key: &str) -> (r: Option<&String>)
        ensures
            agrees(r, self@.text_at(key@)),
    {
        match self.get(key) {
            Some(value) => value.as_text(),
            None => None,
        }
    }
}

/// A parsed document of `serde_json`.
#[verifier::external_type_specification]
#[verifier::external_body]
pub struct ExValue(serde_json::Value);

/// What a parsed document holds.
pub uninterp spec fn content(value: serde_json::Value) -> JsonView;

/// What `serde_json::from_slice` makes of a byte string: a document, or the text
/// of its error.
pub uninterp spec fn document(bytes: Seq<u8>) -> Result<JsonView, Seq<char>>;

/// `serde_json::from_slice` into a `serde_json::Value`. Which bytes it takes, what
/// it reads out of them and how it words its errors is left to the name
/// [`document`].
#[verifier::external_body]
fn parse_value(bytes: &[u8]) -> (r: Result<serde_json::Value, String>)
    ensures
        match r {
            Ok(value) => document(bytes@) == Ok::<JsonView, Seq<char>>(content(value)),
            Err(e) => document(bytes@) == Err::<JsonView, Seq<char>>(e@),
        },
{
    serde_json::from_slice::<serde_json::Value>(bytes).map_err(|error| error.to_string())
}

/// The variants of `serde_json::Value`, one for one: a number by its
/// `Number::as_u64`, an array's items in order, an object's members in the order in
/// which `serde_json::Map` walks them.
#[verifier::external_body]
fn json_of(value: &serde_json::Value) -> (r: Json)
    ensures
        r@ == content(*value),
{
    match value {
        serde_json::Value::Null => Json::Null,
        serde_json::Value::Bool(b) => Json::Bool(*b),
        serde_json::Value::Number(n) => Json::Number(n.as_u64()),
        serde_json::Value::String(s) => Json::Text(s.clone()),
        serde_json::Value::Array(items) => Json::List(items.iter().map(json_of).collect()),
        serde_json::Value::Object(members) => Json::Object(
            members.iter().map(|(k, v)| Member { key: k.clone(), value: json_of(v) }).collect(),
        ),
    }
}

/// Reads a JSON document.
pub fn read_json(bytes: &[u8]) -> (r: Result<Json, String>)
    ensures
        outcome(r, document(bytes@)),
{
    match parse_value(bytes) {
        Ok(value) => Ok(json_of(&value)),
        Err(e) => Err(e),
    }
}

} // verus!
