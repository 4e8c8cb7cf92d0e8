//! JSON documents as the capsules read and build them.

use crate::text::same_text;
use vstd::prelude::*;
use vstd::string::*;

verus! {

/// A JSON document. Numbers keep their text; an object keeps its fields in
/// order and holds each name at most once.
#[derive(Debug, PartialEq, Eq)]
pub enum Json {
    Null,
    Bool(bool),
    Number(String),
    Text(String),
    List(Vec<Json>),
    Object(Vec<(String, Json)>),
}

pub enum JsonView {
    Null,
    Bool(bool),
    Number(Seq<char>),
    Text(Seq<char>),
    List(Seq<JsonView>),
    Object(Seq<(Seq<char>, JsonView)>),
}

impl Json {
    pub open spec fn view(&self) -> JsonView
        decreases self,
    {
        match self {
            Json::Null => JsonView::Null,
            Json::Bool(value) => JsonView::Bool(*value),
            Json::Number(digits) => JsonView::Number(digits@),
            Json::Text(text) => JsonView::Text(text@),
            Json::List(items) => JsonView::List(item_views(items@)),
            Json::Object(fields) => JsonView::Object(field_views(fields@)),
        }
    }
}

pub open spec fn item_views(items: Seq<Json>) -> Seq<JsonView>
    decreases items,
{
    if items.len() == 0 {
        Seq::empty()
    } else {
        item_views(items.drop_last()).push(items.last().view())
    }
}

pub open spec fn field_views(fields: Seq<(String, Json)>) -> Seq<(Seq<char>, JsonView)>
    decreases fields,
{
    if fields.len() == 0 {
        Seq::empty()
    } else {
        field_views(fields.drop_last()).push((fields.last().0@, fields.last().1.view()))
    }
}

pub proof fn lemma_field_views(fields: Seq<(String, Json)>)
    ensures
        field_views(fields).len() == fields.len(),
        forall|i: int|
            0 <= i < fields.len() ==> #[trigger] field_views(fields)[i] == (
                fields[i].0@,
                fields[i].1.view(),
            ),
    decreases fields.len(),
{
    if fields.len() > 0 {
        lemma_field_views(fields.drop_last());
        assert forall|i: int| 0 <= i < fields.len() implies #[trigger] field_views(fields)[i] == (
            fields[i].0@,
            fields[i].1.view(),
        ) by {
            if i < fields.len() - 1 {
                assert(field_views(fields.drop_last())[i] == (
                    fields.drop_last()[i].0@,
                    fields.drop_last()[i].1.view(),
                ));
            }
        }
    }
}

pub proof fn lemma_item_views(items: Seq<Json>)
    ensures
        item_views(items).len() == items.len(),
        forall|i: int|
            0 <= i < items.len() ==> #[trigger] item_views(items)[i] == items[i].view(),
    decreases items.len(),
{
    if items.len() > 0 {
        lemma_item_views(items.drop_last());
        assert forall|i: int| 0 <= i < items.len() implies #[trigger] item_views(items)[i]
            == items[i].view() by {
            if i < items.len() - 1 {
                assert(item_views(items.drop_last())[i] == items.drop_last()[i].view());
            }
        }
    }
}

// Reading documents.

/// A JSON document in the form that `serde_json` parses it into.
#[verifier::external_type_specification]
#[verifier::external_body]
pub struct ExJsonValue(serde_json::Value);

/// The document that a text holds, as `serde_json` reads it; `None` where the
/// text is malformed.
pub uninterp spec fn json_of(document: Seq<char>) -> Option<JsonView>;

pub open spec fn maybe_view(document: Option<Json>) -> Option<JsonView> {
    match document {
        Some(document) => Some(document@),
        None => None,
    }
}

/// A `serde_json::Value`, variant by variant, with a number kept as the text
/// that its `to_string` gives. Nothing is claimed of the result here: what a
/// parsed text becomes has the name `json_of`.
#[verifier::external_body]
fn converted(value: serde_json::Value) -> (r: Json) {
    match value {
        serde_json::Value::Null => Json::Null,
        serde_json::Value::Bool(flag) => Json::Bool(flag),
        serde_json::Value::Number(number) => Json::Number(number.to_string()),
        serde_json::Value::String(text) => Json::Text(text),
        serde_json::Value::Array(items) => Json::List(items.into_iter().map(converted).collect()),
        serde_json::Value::Object(fields) => Json::Object(
            fields.into_iter().map(|(name, field)| (name, converted(field))).collect(),
        ),
    }
}

/// Calls `serde_json::from_str` for a `serde_json::Value`, which depends on the
/// text alone. The document it gives has the name `json_of`; the grammar of
/// JSON is not stated.
#[verifier::external_body]
pub(crate) fn parse_json(document: &str) -> (r: Option<Json>)
    ensures
        maybe_view(r) == json_of(document@),
{
    serde_json::from_str::<serde_json::Value>(document).ok().map(converted)
}

// Looking fields up.

pub open spec fn find_field(fields: Seq<(Seq<char>, JsonView)>, name: Seq<char>) -> Option<int>
    decreases fields.len(),
{
    if fields.len() == 0 {
        None
    } else if fields.last().0 == name {
        Some(fields.len() - 1)
    } else {
        find_field(fields.drop_last(), name)
    }
}

/// The value of a field; other documents than objects have none.
pub open spec fn field_of(document: JsonView, name: Seq<char>) -> Option<JsonView> {
    match document {
        JsonView::Object(fields) => match find_field(fields, name) {
            Some(i) => Some(fields[i].1),
            None => None,
        },
        _ => None,
    }
}

/// The text of a field that holds one.
pub open spec fn text_of(document: JsonView, name: Seq<char>) -> Option<Seq<char>> {
    match field_of(document, name) {
        Some(JsonView::Text(text)) => Some(text),
        _ => None,
    }
}

/// Whether a field holds `true`.
pub open spec fn flag_of(document: JsonView, name: Seq<char>) -> bool {
    field_of(document, name) == Some(JsonView::Bool(true))
}

fn field_index(fields: &Vec<(String, Json)>, name: &str) -> (r: Option<usize>)
    ensures
        match (r, find_field(field_views(fields@), name@)) {
            (Some(i), Some(found)) => i == found && i < fields@.len(),
            (None, None) => true,
            _ => false,
        },
{
    let ghost all = field_views(fields@);
    proof {
        lemma_field_views(fields@);
        assert(all.subrange(0, all.len() as int) =~= all);
    }
    let mut i: usize = fields.len();
    while i > 0
        invariant
            i <= fields@.len(),
            all == field_views(fields@),
            all.len() == fields@.len(),
            forall|j: int| 0 <= j < all.len() ==> (#[trigger] all[j]).0 == fields@[j].0@,
            find_field(all, name@) == find_field(all.subrange(0, i as int), name@),
        decreases i,
    {
        proof {
            let prefix = all.subrange(0, i as int);
            assert(prefix.drop_last() =~= all.subrange(0, i - 1));
            assert(prefix.last() == all[i - 1]);
        }
        if same_text(fields[i - 1].0.as_str(), name) {
            return Some(i - 1);
        }
        i = i - 1;
    }
    None
}

impl Json {
    /// The value of a field.
    pub fn get(&self, name: &str) -> (r: Option<&Json>)
        ensures
            match (r, field_of(self@, name@)) {
                (Some(value), Some(model)) => value@ == model,
                (None, None) => true,
                _ => false,
            },
    {
        match self {
            Json::Object(fields) => match field_index(fields, name) {
                Some(i) => {
                    proof {
                        lemma_field_views(fields@);
                    }
                    Some(&fields[i].1)
                },
                None => None,
            },
            _ => None,
        }
    }

    /// The text of a field that holds one.
    pub fn text_field(&self, name: &str) -> (r: Option<&str>)
        ensures
            match (r, text_of(self@, name@)) {
                (Some(text), Some(model)) => text@ == model,
                (None, None) => true,
                _ => false,
            },
    {
        match self.get(name) {
            Some(Json::Text(text)) => Some(text.as_str()),
            _ => None,
        }
    }

    /// Whether a field holds `true`.
    pub fn flag_field(&self, name: &str) -> (r: bool)
        ensures
            r == flag_of(self@, name@),
    {
        match self.get(name) {
            Some(Json::Bool(value)) => *value,
            _ => false,
        }
    }

    pub fn is_null(&self) -> (r: bool)
        ensures
            r == (self@ is Null),
    {
        match self {
            Json::Null => true,
            _ => false,
        }
    }

    /// Gives a field that is there another text.
    pub fn set_text(&mut self, name: &str, text: &str)
        ensures
            final(self)@ == with_text(old(self)@, name@, text@),
    {
        let ghost before = *self;
        match self {
            Json::Object(fields) => {
                let ghost was = fields@;
                if let Some(i) = field_index(fields, name) {
                    fields[i].1 = Json::Text(text.to_owned());
                    proof {
                        lemma_field_views(was);
                        lemma_field_views(fields@);
                        assert(field_views(fields@) =~= field_views(was).update(
                            i as int,
                            (field_views(was)[i as int].0, JsonView::Text(text@)),
                        ));
                    }
                }
            },
            _ => {},
        }
    }
}

/// A document in which a field that is there holds another text.
pub open spec fn with_text(document: JsonView, name: Seq<char>, text: Seq<char>) -> JsonView {
    match document {
        JsonView::Object(fields) => match find_field(fields, name) {
            Some(i) => JsonView::Object(
                fields.update(i, (fields[i].0, JsonView::Text(text))),
            ),
            None => document,
        },
        _ => document,
    }
}

pub proof fn lemma_find_field(fields: Seq<(Seq<char>, JsonView)>, name: Seq<char>)
    ensures
        find_field(fields, name) matches Some(i) ==> 0 <= i < fields.len() && fields[i].0 == name,
    decreases fields.len(),
{
    if fields.len() > 0 {
        lemma_find_field(fields.drop_last(), name);
    }
}

/// A field is found where it was after its value changed.
pub proof fn lemma_find_updated(
    fields: Seq<(Seq<char>, JsonView)>,
    i: int,
    value: JsonView,
    name: Seq<char>,
)
    requires
        0 <= i < fields.len(),
    ensures
        find_field(fields.update(i, (fields[i].0, value)), name) == find_field(fields, name),
    decreases fields.len(),
{
    let after = fields.update(i, (fields[i].0, value));
    if i < fields.len() - 1 {
        assert(after.drop_last() =~= fields.drop_last().update(i, (fields[i].0, value)));
        lemma_find_updated(fields.drop_last(), i, value, name);
    } else {
        assert(after.drop_last() =~= fields.drop_last());
    }
}

} // verus!
