//! JSON documents, as far as manifests are read.
use crate::text;
use vstd::prelude::*;

verus! {

/// A JSON value. What number a number is is not kept.
pub enum Json {
    Null,
    Bool(bool),
    Number,
    Text(String),
    Array(Vec<Json>),
    /// The members in the order in which they stand.
    Object(Vec<(String, Json)>),
}

/// A `Json` by its characters.
pub enum JsonView {
    Null,
    Bool(bool),
    Number,
    Text(Seq<char>),
    Array(Seq<JsonView>),
    Object(Seq<(Seq<char>, JsonView)>),
}

/// A value by its characters.
pub open spec fn value_view(value: Json) -> JsonView
    decreases value,
{
    match value {
        Json::Null => JsonView::Null,
        Json::Bool(b) => JsonView::Bool(b),
        Json::Number => JsonView::Number,
        Json::Text(s) => JsonView::Text(s@),
        Json::Array(items) => JsonView::Array(items_view(items@)),
        Json::Object(members) => JsonView::Object(members_view(members@)),
    }
}

/// Values by their characters.
pub open spec fn items_view(items: Seq<Json>) -> Seq<JsonView>
    decreases items,
{
    if items.len() == 0 {
        Seq::empty()
    } else {
        items_view(items.drop_last()).push(value_view(items.last()))
    }
}

/// Members by their characters.
pub open spec fn members_view(members: Seq<(String, Json)>) -> Seq<(Seq<char>, JsonView)>
    decreases members,
{
    if members.len() == 0 {
        Seq::empty()
    } else {
        members_view(members.drop_last()).push((members.last().0@, value_view(members.last().1)))
    }
}

impl View for Json {
    type V = JsonView;

    open spec fn view(&self) -> JsonView {
        value_view(*self)
    }
}

/// `items_view` takes each value by its characters, in place.
pub proof fn lemma_items_view(items: Seq<Json>)
    ensures
        items_view(items).len() == items.len(),
        forall|i: int| 0 <= i < items.len() ==> #[trigger] items_view(items)[i] == items[i]@,
    decreases items.len(),
{
    if items.len() > 0 {
        lemma_items_view(items.drop_last());
        assert forall|i: int| 0 <= i < items.len() implies #[trigger] items_view(items)[i]
            == items[i]@ by {
            if i < items.len() - 1 {
                assert(items_view(items.drop_last())[i] == items.drop_last()[i]@);
            }
        }
    }
}

/// `members_view` takes each member by its characters, in place.
pub proof fn lemma_members_view(members: Seq<(String, Json)>)
    ensures
        members_view(members).len() == members.len(),
        forall|i: int|
            0 <= i < members.len() ==> #[trigger] members_view(members)[i] == (
                members[i].0@,
                members[i].1@,
            ),
    decreases members.len(),
{
    if members.len() > 0 {
        lemma_members_view(members.drop_last());
        assert forall|i: int| 0 <= i < members.len() implies #[trigger] members_view(members)[i]
            == (members[i].0@, members[i].1@) by {
            if i < members.len() - 1 {
                assert(members_view(members.drop_last())[i] == (
                    members.drop_last()[i].0@,
                    members.drop_last()[i].1@,
                ));
            }
        }
    }
}

/// The value of the first member `key`.
pub open spec fn member(members: Seq<(Seq<char>, JsonView)>, key: Seq<char>) -> Option<JsonView>
    decreases members.len(),
{
    if members.len() == 0 {
        None
    } else if members[0].0 == key {
        Some(members[0].1)
    } else {
        member(members.drop_first(), key)
    }
}

impl JsonView {
    /// The value of the member `key`, where the value is an object.
    pub open spec fn at(self, key: Seq<char>) -> Option<JsonView> {
        match self {
            JsonView::Object(members) => member(members, key),
            _ => None,
        }
    }

    /// The text, where the value is a text.
    pub open spec fn text(self) -> Option<Seq<char>> {
        match self {
            JsonView::Text(s) => Some(s),
            _ => None,
        }
    }

    /// The truth value, where the value is one.
    pub open spec fn truth(self) -> Option<bool> {
        match self {
            JsonView::Bool(b) => Some(b),
            _ => None,
        }
    }
}

/// The text of the member `key` of an object.
pub open spec fn text_at(value: JsonView, key: Seq<char>) -> Option<Seq<char>> {
    match value.at(key) {
        Some(v) => v.text(),
        None => None,
    }
}

impl Json {
    /// The value of the member `key`, where the value is an object.
    pub fn get(&self, key: &str) -> (value: Option<&Json>)
        ensures
            match value {
                Some(v) => self@.at(key@) == Some(v@),
                None => self@.at(key@) is None,
            },
    {
        match self {
            Json::Object(members) => {
                let ghost all = members_view(members@);
                proof {
                    lemma_members_view(members@);
                    assert(all.skip(0) =~= all);
                }
                for i in 0..members.len()
                    invariant
                        all.len() == members@.len(),
                        forall|k: int|
                            0 <= k < members@.len() ==> #[trigger] all[k] == (
                                members@[k].0@,
                                members@[k].1@,
                            ),
                        self@ == JsonView::Object(all),
                        member(all.skip(i as int), key@) == member(all, key@),
                {
                    assert(all[i as int] == (members@[i as int].0@, members@[i as int].1@));
                    assert(all.skip(i as int).drop_first() =~= all.skip(i + 1));
                    if text::same(&members[i].0, key) {
                        return Some(&members[i].1);
                    }
                }
                None
            },
            _ => None,
        }
    }

    /// The text, where the value is a text.
    pub fn as_str(&self) -> (s: Option<&str>)
        ensures
            text::opt_str_view(s) == self@.text(),
    {
        match self {
            Json::Text(s) => Some(s.as_str()),
            _ => None,
        }
    }

    /// The truth value, where the value is one.
    pub fn as_bool(&self) -> (b: Option<bool>)
        ensures
            b == self@.truth(),
    {
        match self {
            Json::Bool(b) => Some(*b),
            _ => None,
        }
    }

    /// The text of the member `key`, where the value is an object.
    pub fn get_str(&self, key: &str) -> (s: Option<&str>)
        ensures
            text::opt_str_view(s) == text_at(self@, key@),
    {
        match self.get(key) {
            Some(value) => value.as_str(),
            None => None,
        }
    }
}

/// The document that `serde_json::from_str` reads from a text, if it is one.
pub uninterp spec fn json_document(text: Seq<char>) -> Option<JsonView>;

/// A JSON value (`serde_json::Value`).
#[verifier::external_type_specification]
#[verifier::external_body]
pub struct ExJsonValue(serde_json::Value);

/// A value of `serde_json` as one of this crate, variant by variant.
#[verifier::external_body]
fn value_of(value: serde_json::Value) -> (converted: Json) {
    match value {
        serde_json::Value::Null => Json::Null,
        serde_json::Value::Bool(b) => Json::Bool(b),
        serde_json::Value::Number(_) => Json::Number,
        serde_json::Value::String(s) => Json::Text(s),
        serde_json::Value::Array(items) => Json::Array(items.into_iter().map(value_of).collect()),
        serde_json::Value::Object(members) => {
            Json::Object(members.into_iter().map(|(k, v)| (k, value_of(v))).collect())
        },
    }
}

/// A document that may be absent, by its characters.
pub open spec fn opt_document(document: Option<Json>) -> Option<JsonView> {
    match document {
        Some(value) => Some(value@),
        None => None,
    }
}

/// Reads a JSON document (`serde_json::from_str`); none if `text` is not one.
#[verifier::external_body]
pub(crate) fn parse_json(text: &str) -> (document: Option<Json>)
    ensures
        opt_document(document) == json_document(text@),
{
    match serde_json::from_str::<serde_json::Value>(text) {
        Ok(value) => Some(value_of(value)),
        Err(_) => None,
    }
}

/// The value of a member is that of the first one with its name; where no
/// member has the name, there is none.
pub proof fn law_the_first_member_counts(members: Seq<(Seq<char>, JsonView)>, key: Seq<char>, i: int)
    requires
        0 <= i <= members.len(),
        forall|j: int| 0 <= j < i ==> (#[trigger] members[j]).0 != key,
        i < members.len() ==> members[i].0 == key,
    ensures
        i < members.len() ==> JsonView::Object(members).at(key) == Some(members[i].1),
        i == members.len() ==> JsonView::Object(members).at(key) is None,
    decreases i,
{
    if i > 0 {
        let rest = members.drop_first();
        assert(members[0].0 != key);
        assert forall|j: int| 0 <= j < i - 1 implies (#[trigger] rest[j]).0 != key by {
            assert(rest[j] == members[j + 1]);
        }
        law_the_first_member_counts(rest, key, i - 1);
    }
}

/// Only objects have members, only texts are texts and only truth values are
/// true or false.
pub proof fn law_values_are_what_they_are(value: JsonView, key: Seq<char>, s: Seq<char>, b: bool)
    ensures
        value.at(key) is Some ==> value is Object,
        value.text() == Some(s) <==> value == JsonView::Text(s),
        value.truth() == Some(b) <==> value == JsonView::Bool(b),
        text_at(value, key) == Some(s) <==> value.at(key) == Some(JsonView::Text(s)),
{
}

} // verus!
