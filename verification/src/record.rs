//! Property records as the container holds them, and the order of their
//! names.

use vstd::prelude::*;
use crate::order::{lemma_text_irreflexive, lemma_text_total, lemma_text_transitive, text_before, text_lt};

verus! {

/// One record of the container. Either field may be absent in what the
/// container holds; a record is live only with both.
#[derive(Debug, Clone, PartialEq, Eq)]
pub struct PropertyRecord {
    pub name: Option<String>,
    pub value: Option<String>,
}

/// What a record holds, as text.
pub struct RecordView {
    pub name: Option<Seq<char>>,
    pub value: Option<Seq<char>>,
}

/// A property that is there: a name and its value.
#[derive(Debug, Clone, PartialEq, Eq)]
pub struct Property {
    pub name: String,
    pub value: String,
}

/// The text of an optional string.
pub open spec fn text_of(field: Option<String>) -> Option<Seq<char>> {
    match field {
        Some(s) => Some(s@),
        None => None,
    }
}

/// The text of an optional string slice.
pub open spec fn text_of_str(field: Option<&str>) -> Option<Seq<char>> {
    match field {
        Some(s) => Some(s@),
        None => None,
    }
}

impl View for PropertyRecord {
    type V = RecordView;

    open spec fn view(&self) -> RecordView {
        RecordView { name: text_of(self.name), value: text_of(self.value) }
    }
}

impl View for Property {
    type V = (Seq<char>, Seq<char>);

    open spec fn view(&self) -> (Seq<char>, Seq<char>) {
        (self.name@, self.value@)
    }
}

/// The views of a run of records, one for one.
pub open spec fn views_of(records: Seq<PropertyRecord>) -> Seq<RecordView> {
    records.map_values(|r: PropertyRecord| r@)
}

/// The views of a run of properties, one for one.
pub open spec fn pairs_of(properties: Seq<Property>) -> Seq<(Seq<char>, Seq<char>)> {
    properties.map_values(|p: Property| p@)
}

/// The order of record names: an absent name comes before every present
/// one, and present names go by `text_lt`.
pub open spec fn key_lt(a: Option<Seq<char>>, b: Option<Seq<char>>) -> bool {
    match (a, b) {
        (None, Some(_)) => true,
        (Some(x), Some(y)) => text_lt(x, y),
        _ => false,
    }
}

/// No name comes before itself.
pub proof fn lemma_key_irreflexive(a: Option<Seq<char>>)
    ensures
        !key_lt(a, a),
{
    if let Some(x) = a {
        lemma_text_irreflexive(x);
    }
}

/// `key_lt` is transitive.
pub proof fn lemma_key_transitive(a: Option<Seq<char>>, b: Option<Seq<char>>, c: Option<Seq<char>>)
    requires
        key_lt(a, b),
        key_lt(b, c),
    ensures
        key_lt(a, c),
{
    if let (Some(x), Some(y), Some(z)) = (a, b, c) {
        lemma_text_transitive(x, y, z);
    }
}

/// Two different names are ordered one way or the other.
pub proof fn lemma_key_total(a: Option<Seq<char>>, b: Option<Seq<char>>)
    ensures
        a == b || key_lt(a, b) || key_lt(b, a),
{
    if let (Some(x), Some(y)) = (a, b) {
        lemma_text_total(x, y);
    }
}

/// From `a` not after `b` and `b` before `c`: `a` before `c`.
pub proof fn lemma_key_le_lt(a: Option<Seq<char>>, b: Option<Seq<char>>, c: Option<Seq<char>>)
    requires
        !key_lt(b, a),
        key_lt(b, c),
    ensures
        key_lt(a, c),
{
    lemma_key_total(a, b);
    if a != b {
        lemma_key_transitive(a, b, c);
    }
}

/// Of two names at most one comes before the other.
pub proof fn lemma_key_asymmetric(a: Option<Seq<char>>, b: Option<Seq<char>>)
    requires
        key_lt(a, b),
    ensures
        !key_lt(b, a),
{
    if key_lt(b, a) {
        lemma_key_transitive(a, b, a);
        lemma_key_irreflexive(a);
    }
}

/// Whether the name `a` comes strictly before the name `b`.
pub fn key_before(a: Option<&str>, b: Option<&str>) -> (before: bool)
    ensures
        before == key_lt(text_of_str(a), text_of_str(b)),
{
    match (a, b) {
        (None, Some(_)) => true,
        (Some(x), Some(y)) => text_before(x, y),
        _ => false,
    }
}

/// The name of a record, borrowed.
pub fn name_of(record: &PropertyRecord) -> (name: Option<&str>)
    ensures
        text_of_str(name) == record@.name,
{
    match &record.name {
        Some(s) => Some(s.as_str()),
        None => None,
    }
}

} // verus!
