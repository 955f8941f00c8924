//! YAML documents, as far as manifests are read.
use crate::text;
use vstd::prelude::*;

verus! {

/// A YAML value. What number a number is, and what a tag says, is not kept.
pub enum Yaml {
    Null,
    Bool(bool),
    Number,
    Text(String),
    Sequence(Vec<Yaml>),
    /// The entries in the order in which they stand.
    Mapping(Vec<(Yaml, Yaml)>),
    Tagged(Box<Yaml>),
}

/// A `Yaml` by its characters.
pub enum YamlView {
    Null,
    Bool(bool),
    Number,
    Text(Seq<char>),
    Sequence(Seq<YamlView>),
    Mapping(Seq<(YamlView, YamlView)>),
    Tagged(Box<YamlView>),
}

/// A value by its characters.
pub open spec fn value_view(value: Yaml) -> YamlView
    decreases value,
{
    match value {
        Yaml::Null => YamlView::Null,
        Yaml::Bool(b) => YamlView::Bool(b),
        Yaml::Number => YamlView::Number,
        Yaml::Text(s) => YamlView::Text(s@),
        Yaml::Sequence(items) => YamlView::Sequence(items_view(items@)),
        Yaml::Mapping(entries) => YamlView::Mapping(entries_view(entries@)),
        Yaml::Tagged(inner) => YamlView::Tagged(Box::new(value_view(*inner))),
    }
}

/// Values by their characters.
pub open spec fn items_view(items: Seq<Yaml>) -> Seq<YamlView>
    decreases items,
{
    if items.len() == 0 {
        Seq::empty()
    } else {
        items_view(items.drop_last()).push(value_view(items.last()))
    }
}

/// Entries by their characters.
pub open spec fn entries_view(entries: Seq<(Yaml, Yaml)>) -> Seq<(YamlView, YamlView)>
    decreases entries,
{
    if entries.len() == 0 {
        Seq::empty()
    } else {
        entries_view(entries.drop_last()).push(
            (value_view(entries.last().0), value_view(entries.last().1)),
        )
    }
}

impl View for Yaml {
    type V = YamlView;

    open spec fn view(&self) -> YamlView {
        value_view(*self)
    }
}

/// `items_view` takes each value by its characters, in place.
pub proof fn lemma_items_view(items: Seq<Yaml>)
    ensures
        items_view(items).len() == items.len(),
        forall|i: int| 0 <= i < items.len() ==> #[trigger] items_view(items)[i] == items[i]@,
    decreases items.len(),
{
    if items.len() > 0 {
        lemma_items_view(items.drop_last());
        assert forall|i: int| 0 <= i < items.len() implies #[trigger] items_view(items)[i]
            == items[i]@ by {
            if i < items.len() - 1 {
                assert(items_view(items.drop_last())[i] == items.drop_last()[i]@);
            }
        }
    }
}

/// `entries_view` takes each entry by its characters, in place.
pub proof fn lemma_entries_view(entries: Seq<(Yaml, Yaml)>)
    ensures
        entries_view(entries).len() == entries.len(),
        forall|i: int|
            0 <= i < entries.len() ==> #[trigger] entries_view(entries)[i] == (
                entries[i].0@,
                entries[i].1@,
            ),
    decreases entries.len(),
{
    if entries.len() > 0 {
        lemma_entries_view(entries.drop_last());
        assert forall|i: int| 0 <= i < entries.len() implies #[trigger] entries_view(entries)[i]
            == (entries[i].0@, entries[i].1@) by {
            if i < entries.len() - 1 {
                assert(entries_view(entries.drop_last())[i] == (
                    entries.drop_last()[i].0@,
                    entries.drop_last()[i].1@,
                ));
            }
        }
    }
}

/// The value of the first entry with the text `key` for its key.
pub open spec fn entry(entries: Seq<(YamlView, YamlView)>, key: Seq<char>) -> Option<YamlView>
    decreases entries.len(),
{
    if entries.len() == 0 {
        None
    } else if entries[0].0 == YamlView::Text(key) {
        Some(entries[0].1)
    } else {
        entry(entries.drop_first(), key)
    }
}

impl YamlView {
    /// The value without its tags.
    pub open spec fn untagged(self) -> YamlView
        decreases self,
    {
        match self {
            YamlView::Tagged(inner) => inner.untagged(),
            _ => self,
        }
    }

    /// The value of the entry `key`, where the value is a mapping.
    pub open spec fn at(self, key: Seq<char>) -> Option<YamlView> {
        match self.untagged() {
            YamlView::Mapping(entries) => entry(entries, key),
            _ => None,
        }
    }

    /// The text, where the value is a text.
    pub open spec fn text(self) -> Option<Seq<char>> {
        match self.untagged() {
            YamlView::Text(s) => Some(s),
            _ => None,
        }
    }
}

/// The text of the entry `key` of a mapping.
pub open spec fn text_at(value: YamlView, key: Seq<char>) -> Option<Seq<char>> {
    match value.at(key) {
        Some(v) => v.text(),
        None => None,
    }
}

impl Yaml {
    /// The value without its tags.
    pub fn untag(&self) -> (value: &Yaml)
        ensures
            value@ == self@.untagged(),
        decreases self,
    {
        match self {
            Yaml::Tagged(inner) => inner.untag(),
            _ => self,
        }
    }

    /// The value of the entry `key`, where the value is a mapping.
    pub fn get(&self, key: &str) -> (value: Option<&Yaml>)
        ensures
            match value {
                Some(v) => self@.at(key@) == Some(v@),
                None => self@.at(key@) is None,
            },
    {
        match self.untag() {
            Yaml::Mapping(entries) => {
                let ghost all = entries_view(entries@);
                proof {
                    lemma_entries_view(entries@);
                    assert(all.skip(0) =~= all);
                }
                for i in 0..entries.len()
                    invariant
                        all.len() == entries@.len(),
                        forall|k: int|
                            0 <= k < entries@.len() ==> #[trigger] all[k] == (
                                entries@[k].0@,
                                entries@[k].1@,
                            ),
                        self@.untagged() == YamlView::Mapping(all),
                        entry(all.skip(i as int), key@) == entry(all, key@),
                {
                    assert(all[i as int] == (entries@[i as int].0@, entries@[i as int].1@));
                    assert(all.skip(i as int).drop_first() =~= all.skip(i + 1));
                    if let Yaml::Text(name) = &entries[i].0 {
                        if text::same(name, key) {
                            return Some(&entries[i].1);
                        }
                    }
                }
                None
            },
            _ => None,
        }
    }

    /// The text, where the value is a text.
    pub fn as_str(&self) -> (s: Option<&str>)
        ensures
            text::opt_str_view(s) == self@.text(),
    {
        match self.untag() {
            Yaml::Text(s) => Some(s.as_str()),
            _ => None,
        }
    }

    /// The text of the entry `key`, where the value is a mapping.
    pub fn get_str(&self, key: &str) -> (s: Option<&str>)
        ensures
            text::opt_str_view(s) == text_at(self@, key@),
    {
        match self.get(key) {
            Some(value) => value.as_str(),
            None => None,
        }
    }
}

/// The document that `serde_yaml::from_str` reads from a text, if it is one.
pub uninterp spec fn yaml_document(text: Seq<char>) -> Option<YamlView>;

/// A YAML value (`serde_yaml::Value`).
#[verifier::external_type_specification]
#[verifier::external_body]
pub struct ExYamlValue(serde_yaml::Value);

/// A value of `serde_yaml` as one of this crate, variant by variant.
#[verifier::external_body]
fn value_of(value: serde_yaml::Value) -> (converted: Yaml) {
    match value {
        serde_yaml::Value::Null => Yaml::Null,
        serde_yaml::Value::Bool(b) => Yaml::Bool(b),
        serde_yaml::Value::Number(_) => Yaml::Number,
        serde_yaml::Value::String(s) => Yaml::Text(s),
        serde_yaml::Value::Sequence(items) => {
            Yaml::Sequence(items.into_iter().map(value_of).collect())
        },
        serde_yaml::Value::Mapping(entries) => {
            Yaml::Mapping(entries.into_iter().map(|(k, v)| (value_of(k), value_of(v))).collect())
        },
        serde_yaml::Value::Tagged(tagged) => Yaml::Tagged(Box::new(value_of(tagged.value))),
    }
}

/// A document that may be absent, by its characters.
pub open spec fn opt_document(document: Option<Yaml>) -> Option<YamlView> {
    match document {
        Some(value) => Some(value@),
        None => None,
    }
}

/// Reads a YAML document (`serde_yaml::from_str`); none if `text` is not one.
#[verifier::external_body]
pub(crate) fn parse_yaml(text: &str) -> (document: Option<Yaml>)
    ensures
        opt_document(document) == yaml_document(text@),
{
    match serde_yaml::from_str::<serde_yaml::Value>(text) {
        Ok(value) => Some(value_of(value)),
        Err(_) => None,
    }
}

/// The value of an entry is that of the first one with its name; where no entry
/// has the name, there is none.
pub proof fn law_the_first_entry_counts(entries: Seq<(YamlView, YamlView)>, key: Seq<char>, i: int)
    requires
        0 <= i <= entries.len(),
        forall|j: int| 0 <= j < i ==> (#[trigger] entries[j]).0 != YamlView::Text(key),
        i < entries.len() ==> entries[i].0 == YamlView::Text(key),
    ensures
        i < entries.len() ==> YamlView::Mapping(entries).at(key) == Some(entries[i].1),
        i == entries.len() ==> YamlView::Mapping(entries).at(key) is None,
    decreases i,
{
    if i > 0 {
        let rest = entries.drop_first();
        assert(entries[0].0 != YamlView::Text(key));
        assert forall|j: int| 0 <= j < i - 1 implies (#[trigger] rest[j]).0 != YamlView::Text(
            key,
        ) by {
            assert(rest[j] == entries[j + 1]);
        }
        law_the_first_entry_counts(rest, key, i - 1);
    }
}

/// A tag makes no difference to what a value is; only mappings have entries,
/// and only texts are texts.
pub proof fn law_tags_make_no_difference(value: YamlView, key: Seq<char>, s: Seq<char>)
    ensures
        YamlView::Tagged(Box::new(value)).untagged() == value.untagged(),
        YamlView::Tagged(Box::new(value)).at(key) == value.at(key),
        YamlView::Tagged(Box::new(value)).text() == value.text(),
        !(value is Tagged) ==> value.untagged() == value,
        !(value is Tagged) && value.at(key) is Some ==> value is Mapping,
        !(value is Tagged) ==> (value.text() == Some(s) <==> value == YamlView::Text(s)),
        text_at(value, key) == (match value.at(key) {
            Some(v) => v.text(),
            None => None,
        }),
{
}

} // verus!
