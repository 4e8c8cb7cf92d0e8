//! TOML documents as the capsules read them.

use crate::text;
use crate::text::same_text;
use vstd::prelude::*;
use vstd::string::*;

verus! {

/// A TOML document. Floats and moments in time keep their text; a table keeps
/// its entries in order and holds each key at most once.
#[derive(Debug, PartialEq, Eq)]
pub enum Toml {
    Text(String),
    Integer(i64),
    Float(String),
    Bool(bool),
    Moment(String),
    List(Vec<Toml>),
    Table(Vec<(String, Toml)>),
}

pub enum TomlView {
    Text(Seq<char>),
    Integer(i64),
    Float(Seq<char>),
    Bool(bool),
    Moment(Seq<char>),
    List(Seq<TomlView>),
    Table(Seq<(Seq<char>, TomlView)>),
}

impl Toml {
    pub open spec fn view(&self) -> TomlView
        decreases self,
    {
        match self {
            Toml::Text(text) => TomlView::Text(text@),
            Toml::Integer(value) => TomlView::Integer(*value),
            Toml::Float(digits) => TomlView::Float(digits@),
            Toml::Bool(value) => TomlView::Bool(*value),
            Toml::Moment(text) => TomlView::Moment(text@),
            Toml::List(items) => TomlView::List(item_views(items@)),
            Toml::Table(entries) => TomlView::Table(entry_views(entries@)),
        }
    }
}

pub open spec fn item_views(items: Seq<Toml>) -> Seq<TomlView>
    decreases items,
{
    if items.len() == 0 {
        Seq::empty()
    } else {
        item_views(items.drop_last()).push(items.last().view())
    }
}

pub open spec fn entry_views(entries: Seq<(String, Toml)>) -> Seq<(Seq<char>, TomlView)>
    decreases entries,
{
    if entries.len() == 0 {
        Seq::empty()
    } else {
        entry_views(entries.drop_last()).push((entries.last().0@, entries.last().1.view()))
    }
}

proof fn lemma_entry_views(entries: Seq<(String, Toml)>)
    ensures
        entry_views(entries).len() == entries.len(),
        forall|i: int|
            0 <= i < entries.len() ==> #[trigger] entry_views(entries)[i] == (
                entries[i].0@,
                entries[i].1.view(),
            ),
    decreases entries.len(),
{
    if entries.len() > 0 {
        let front = entries.drop_last();
        lemma_entry_views(front);
        assert forall|i: int| 0 <= i < entries.len() implies #[trigger] entry_views(entries)[i] == (
            entries[i].0@,
            entries[i].1.view(),
        ) by {
            if i < front.len() {
                assert(entry_views(front)[i] == (front[i].0@, front[i].1.view()));
            }
        }
    }
}

// Reading documents.

/// A TOML value in the form that `toml` parses a document into.
#[verifier::external_type_specification]
#[verifier::external_body]
pub struct ExTomlValue(toml::Value);

/// The document that a text holds, as `toml` reads it; `None` where the text is
/// malformed.
pub uninterp spec fn toml_of(document: Seq<char>) -> Option<TomlView>;

pub open spec fn maybe_view(document: Option<Toml>) -> Option<TomlView> {
    match document {
        Some(document) => Some(document@),
        None => None,
    }
}

/// A `toml::Value`, variant by variant, with a float and a moment in time kept
/// as the text that its `to_string` gives. Nothing is claimed of the result
/// here: what a parsed text becomes has the name `toml_of`.
#[verifier::external_body]
fn converted(value: toml::Value) -> (r: Toml) {
    match value {
        toml::Value::String(text) => Toml::Text(text),
        toml::Value::Integer(value) => Toml::Integer(value),
        toml::Value::Float(value) => Toml::Float(value.to_string()),
        toml::Value::Boolean(value) => Toml::Bool(value),
        toml::Value::Datetime(moment) => Toml::Moment(moment.to_string()),
        toml::Value::Array(items) => Toml::List(items.into_iter().map(converted).collect()),
        toml::Value::Table(entries) => Toml::Table(
            entries.into_iter().map(|(key, entry)| (key, converted(entry))).collect(),
        ),
    }
}

/// Calls `str::parse::<toml::Value>`, which depends on the text alone. The
/// document it gives has the name `toml_of`; the grammar of TOML is not stated.
#[verifier::external_body]
pub(crate) fn parse_toml(document: &str) -> (r: Option<Toml>)
    ensures
        maybe_view(r) == toml_of(document@),
{
    document.parse::<toml::Value>().ok().map(converted)
}

// Looking tables up.

/// Where a key stands.
pub open spec fn find_key(entries: Seq<(Seq<char>, TomlView)>, key: Seq<char>) -> Option<int>
    decreases entries.len(),
{
    if entries.len() == 0 {
        None
    } else if entries.last().0 == key {
        Some(entries.len() - 1)
    } else {
        find_key(entries.drop_last(), key)
    }
}

/// The value under a key; other values than tables have none.
pub open spec fn entry_of(document: TomlView, key: Seq<char>) -> Option<TomlView> {
    match document {
        TomlView::Table(entries) => match find_key(entries, key) {
            Some(i) => Some(entries[i].1),
            None => None,
        },
        _ => None,
    }
}

/// The keys of some entries, in order.
pub open spec fn keys(entries: Seq<(Seq<char>, TomlView)>) -> Seq<Seq<char>> {
    Seq::new(entries.len(), |i: int| entries[i].0)
}

/// The keys of the table under a key, in order; none where no table stands
/// there.
pub open spec fn table_keys_of(document: TomlView, key: Seq<char>) -> Seq<Seq<char>> {
    match entry_of(document, key) {
        Some(TomlView::Table(entries)) => keys(entries),
        _ => Seq::empty(),
    }
}

impl Toml {
    /// The value under a key.
    pub fn get(&self, key: &str) -> (r: Option<&Toml>)
        ensures
            match (r, entry_of(self@, key@)) {
                (Some(value), Some(model)) => value@ == model,
                (None, None) => true,
                _ => false,
            },
    {
        match self {
            Toml::Table(entries) => {
                let ghost all = entry_views(entries@);
                proof {
                    lemma_entry_views(entries@);
                    assert(all.subrange(0, all.len() as int) =~= all);
                }
                let mut i: usize = entries.len();
                while i > 0
                    invariant
                        i <= entries@.len(),
                        self@ == TomlView::Table(all),
                        all.len() == entries@.len(),
                        forall|j: int|
                            0 <= j < all.len() ==> #[trigger] all[j] == (
                                entries@[j].0@,
                                entries@[j].1.view(),
                            ),
                        find_key(all, key@) == find_key(all.subrange(0, i as int), key@),
                    decreases i,
                {
                    proof {
                        let prefix = all.subrange(0, i as int);
                        assert(prefix.drop_last() =~= all.subrange(0, i - 1));
                        assert(prefix.last() == all[i - 1]);
                    }
                    if same_text(entries[i - 1].0.as_str(), key) {
                        return Some(&entries[i - 1].1);
                    }
                    i = i - 1;
                }
                None
            },
            _ => None,
        }
    }

    /// The keys of the table under a key.
    pub fn table_keys(&self, key: &str) -> (r: Vec<String>)
        ensures
            text::texts(r@) == table_keys_of(self@, key@),
    {
        let mut found: Vec<String> = Vec::new();
        if let Some(Toml::Table(entries)) = self.get(key) {
            let ghost all = entry_views(entries@);
            proof {
                lemma_entry_views(entries@);
            }
            let mut i: usize = 0;
            while i < entries.len()
                invariant
                    i <= entries@.len(),
                    all.len() == entries@.len(),
                    forall|j: int| 0 <= j < all.len() ==> (#[trigger] all[j]).0 == entries@[j].0@,
                    text::texts(found@) == keys(all).subrange(0, i as int),
                decreases entries@.len() - i,
            {
                let ghost before = text::texts(found@);
                found.push(entries[i].0.clone());
                assert(text::texts(found@) =~= before.push(all[i as int].0));
                assert(keys(all).subrange(0, i + 1) =~= before.push(all[i as int].0));
                i = i + 1;
            }
            assert(keys(all).subrange(0, i as int) =~= keys(all));
        }
        assert(found@.len() == 0 ==> text::texts(found@) =~= Seq::<Seq<char>>::empty());
        found
    }
}

} // verus!
