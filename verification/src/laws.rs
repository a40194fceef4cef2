//! What holds of the index whatever is written to it: what is written is
//! read back, names stay in strictly increasing order, and a property that
//! was deleted is gone.

use vstd::prelude::*;
use crate::index::{
    found_at, is_boundary, is_sorted, is_strictly_sorted, lemma_boundary_unique,
    lemma_insert_keeps_sorted, lemma_rank_is_boundary, lemma_remove_keeps_sorted,
    lemma_update_keeps_sorted, live_entries, rank, sorted_by_name, value_of, with_property,
    without_property,
};
use crate::order::text_lt;
use crate::record::{
    key_lt, lemma_key_asymmetric, lemma_key_irreflexive, lemma_key_total, lemma_key_transitive,
    RecordView,
};

verus! {

/// One more record raises the rank of a key by one if its name comes before
/// the key, and not at all otherwise, wherever it goes in.
pub proof fn lemma_rank_insert(s: Seq<RecordView>, at: int, record: RecordView, key: Option<Seq<char>>)
    requires
        0 <= at <= s.len(),
    ensures
        rank(s.insert(at, record), key) == rank(s, key) + if key_lt(record.name, key) {
            1int
        } else {
            0int
        },
    decreases s.len(),
{
    let t = s.insert(at, record);
    if at == s.len() {
        assert(t.drop_last() =~= s);
    } else {
        assert(t.drop_last() =~= s.drop_last().insert(at, record));
        assert(t.last() == s.last());
        lemma_rank_insert(s.drop_last(), at, record, key);
    }
}

/// One record less lowers the rank of a key by one if its name came before
/// the key, and not at all otherwise.
pub proof fn lemma_rank_remove(s: Seq<RecordView>, at: int, key: Option<Seq<char>>)
    requires
        0 <= at < s.len(),
    ensures
        rank(s.remove(at), key) == rank(s, key) - if key_lt(s[at].name, key) {
            1int
        } else {
            0int
        },
    decreases s.len(),
{
    let t = s.remove(at);
    if at == s.len() - 1 {
        assert(t =~= s.drop_last());
    } else {
        assert(t.drop_last() =~= s.drop_last().remove(at));
        assert(t.last() == s.last());
        lemma_rank_remove(s.drop_last(), at, key);
    }
}

/// The rank of a key looks at names only.
pub proof fn lemma_rank_same_names(s: Seq<RecordView>, t: Seq<RecordView>, key: Option<Seq<char>>)
    requires
        s.len() == t.len(),
        forall|i: int| 0 <= i < s.len() ==> (#[trigger] s[i]).name == t[i].name,
    ensures
        rank(s, key) == rank(t, key),
    decreases s.len(),
{
    if s.len() > 0 {
        assert(s.last().name == t.last().name) by {
            assert(s[s.len() - 1].name == t[s.len() - 1].name);
        }
        assert forall|i: int| 0 <= i < s.drop_last().len() implies (#[trigger] s.drop_last()[i]).name
            == t.drop_last()[i].name by {
            assert(s[i].name == t[i].name);
        }
        lemma_rank_same_names(s.drop_last(), t.drop_last(), key);
    }
}

/// Strictly increasing names are sorted names.
pub proof fn lemma_strict_is_sorted(s: Seq<RecordView>)
    requires
        is_strictly_sorted(s),
    ensures
        is_sorted(s),
{
    assert forall|i: int, j: int| #![trigger s[i], s[j]] 0 <= i < j < s.len() implies !key_lt(
        s[j].name,
        s[i].name,
    ) by {
        lemma_key_asymmetric(s[i].name, s[j].name);
    }
}

/// A property that was set is read back: whatever the index held, after
/// `name` is set to `value` the value under `name` is `value`.
pub proof fn law_write_then_read(s: Seq<RecordView>, name: Seq<char>, value: Seq<char>)
    requires
        is_sorted(s),
    ensures
        value_of(with_property(s, name, value), name) == Some(value),
        found_at(with_property(s, name, value), name) == Ok::<int, int>(rank(s, Some(name))),
{
    let key = Some(name);
    let at = rank(s, key);
    let record = RecordView { name: key, value: Some(value) };
    let t = with_property(s, name, value);
    lemma_rank_is_boundary(s, key);
    match found_at(s, name) {
        Ok(_) => {
            assert forall|i: int| 0 <= i < s.len() implies (#[trigger] s[i]).name == t[i].name by {}
            lemma_rank_same_names(s, t, key);
        },
        Err(_) => {
            lemma_rank_insert(s, at, record, key);
            lemma_key_irreflexive(key);
        },
    }
}

/// Setting one property leaves every other as it was.
pub proof fn law_write_keeps_others(
    s: Seq<RecordView>,
    name: Seq<char>,
    value: Seq<char>,
    other: Seq<char>,
)
    requires
        is_sorted(s),
        other != name,
    ensures
        value_of(with_property(s, name, value), other) == value_of(s, other),
{
    lemma_found_after_write(s, name, value, other);
    lemma_rank_is_boundary(s, Some(name));
    lemma_rank_is_boundary(s, Some(other));
}

/// Setting a property keeps the names in strictly increasing order.
pub proof fn law_write_keeps_order(s: Seq<RecordView>, name: Seq<char>, value: Seq<char>)
    requires
        is_strictly_sorted(s),
    ensures
        is_strictly_sorted(with_property(s, name, value)),
{
    let key = Some(name);
    let at = rank(s, key);
    let t = with_property(s, name, value);
    lemma_strict_is_sorted(s);
    lemma_rank_is_boundary(s, key);
    assert forall|i: int, j: int| #![trigger t[i], t[j]] 0 <= i < j < t.len() implies key_lt(
        t[i].name,
        t[j].name,
    ) by {
        match found_at(s, name) {
            Ok(_) => {
                assert(t[i].name == s[i].name && t[j].name == s[j].name);
            },
            Err(_) => {
                if j == at {
                    assert(t[i] == s[i]);
                } else if i == at {
                    assert(t[j] == s[j - 1]);
                    assert(!key_lt(s[j - 1].name, key));
                    lemma_key_total(key, s[j - 1].name);
                    if j - 1 > at {
                        assert(key_lt(s[at].name, s[j - 1].name));
                    }
                } else {
                    let oi = if i < at { i } else { i - 1 };
                    let oj = if j < at { j } else { j - 1 };
                    assert(t[i] == s[oi] && t[j] == s[oj]);
                }
            },
        }
    }
}

/// Deleting a property keeps the names in strictly increasing order.
pub proof fn law_delete_keeps_order(s: Seq<RecordView>, name: Seq<char>)
    requires
        is_strictly_sorted(s),
    ensures
        is_strictly_sorted(without_property(s, name)),
{
    let t = without_property(s, name);
    lemma_strict_is_sorted(s);
    lemma_rank_is_boundary(s, Some(name));
    if let Ok(at) = found_at(s, name) {
        assert forall|i: int, j: int| #![trigger t[i], t[j]] 0 <= i < j < t.len() implies key_lt(
            t[i].name,
            t[j].name,
        ) by {
            let oi = if i < at { i } else { i + 1 };
            let oj = if j < at { j } else { j + 1 };
            assert(t[i] == s[oi] && t[j] == s[oj]);
        }
    }
}

/// Deleting a property that is not there changes nothing.
pub proof fn law_delete_absent(s: Seq<RecordView>, name: Seq<char>)
    requires
        found_at(s, name) is Err,
    ensures
        without_property(s, name) == s,
{
}

/// A property that was deleted is gone: where no name occurs twice, a
/// second delete of the same name finds nothing.
pub proof fn law_delete_twice(s: Seq<RecordView>, name: Seq<char>)
    requires
        is_strictly_sorted(s),
    ensures
        found_at(without_property(s, name), name) is Err,
        value_of(without_property(s, name), name) is None,
        without_property(without_property(s, name), name) == without_property(s, name),
{
    let key = Some(name);
    let t = without_property(s, name);
    lemma_strict_is_sorted(s);
    lemma_rank_is_boundary(s, key);
    if let Ok(at) = found_at(s, name) {
        lemma_rank_remove(s, at, key);
        lemma_key_irreflexive(key);
        if at < t.len() {
            assert(t[at] == s[at + 1]);
            assert(key_lt(s[at].name, s[at + 1].name));
            lemma_key_irreflexive(key);
        }
    }
}

/// Deleting one property leaves every other as it was.
pub proof fn law_delete_keeps_others(s: Seq<RecordView>, name: Seq<char>, other: Seq<char>)
    requires
        is_sorted(s),
        other != name,
    ensures
        value_of(without_property(s, name), other) == value_of(s, other),
{
    let key = Some(name);
    let wanted = Some(other);
    let place = rank(s, wanted);
    let t = without_property(s, name);
    lemma_rank_is_boundary(s, key);
    lemma_rank_is_boundary(s, wanted);
    if let Ok(at) = found_at(s, name) {
        lemma_rank_remove(s, at, wanted);
        lemma_key_total(key, wanted);
        if key_lt(key, wanted) {
            assert(at < place) by {
                if place <= at {
                    assert(!key_lt(s[at].name, wanted));
                }
            }
            if place < s.len() {
                assert(t[place - 1] == s[place]);
            }
        } else {
            assert(place <= at) by {
                if at < place {
                    assert(key_lt(s[at].name, wanted));
                    lemma_key_asymmetric(wanted, key);
                }
            }
            if place < at {
                assert(t[place] == s[place]);
            } else if at + 1 < s.len() {
                assert(t[at] == s[at + 1]);
                assert(!key_lt(s[at + 1].name, s[at].name));
                if s[at + 1].name == wanted {
                    assert(key_lt(s[at + 1].name, s[at].name));
                }
            }
        }
    }
}

/// Setting or deleting a property keeps a sorted index sorted.
pub proof fn lemma_edit_keeps_sorted(s: Seq<RecordView>, name: Seq<char>, value: Seq<char>)
    requires
        is_sorted(s),
    ensures
        is_sorted(with_property(s, name, value)),
        is_sorted(without_property(s, name)),
{
    let record = RecordView { name: Some(name), value: Some(value) };
    lemma_rank_is_boundary(s, Some(name));
    match found_at(s, name) {
        Ok(at) => {
            lemma_update_keeps_sorted(s, at, record);
            lemma_remove_keeps_sorted(s, at);
        },
        Err(at) => {
            lemma_insert_keeps_sorted(s, record, at);
        },
    }
}

/// Each record of the sorted arrangement is a record of what was sorted.
proof fn lemma_sort_source(s: Seq<RecordView>, k: int) -> (i: int)
    requires
        0 <= k < sorted_by_name(s).len(),
    ensures
        0 <= i < s.len(),
        sorted_by_name(s)[k] == s[i],
    decreases s.len(),
{
    law_sort_arranges(s);
    let rest = sorted_by_name(s.drop_first());
    let at = rank(rest, s[0].name);
    law_sort_arranges(s.drop_first());
    lemma_rank_is_boundary(rest, s[0].name);
    if k == at {
        0
    } else {
        let inner = if k < at { k } else { k - 1 };
        let j = lemma_sort_source(s.drop_first(), inner);
        j + 1
    }
}

/// Sorting arranges: the result is sorted and holds the same records, each
/// as often as before.
pub proof fn law_sort_arranges(s: Seq<RecordView>)
    ensures
        is_sorted(sorted_by_name(s)),
        sorted_by_name(s).len() == s.len(),
        sorted_by_name(s).to_multiset() == s.to_multiset(),
    decreases s.len(),
{
    broadcast use vstd::seq_lib::to_multiset_insert;

    if s.len() > 0 {
        let tail = s.drop_first();
        let rest = sorted_by_name(tail);
        let at = rank(rest, s[0].name);
        law_sort_arranges(tail);
        lemma_rank_is_boundary(rest, s[0].name);
        lemma_insert_keeps_sorted(rest, s[0], at);
        assert(tail.insert(0, s[0]) =~= s);
        assert(s.to_multiset() == tail.to_multiset().insert(s[0]));
        assert(rest.insert(at, s[0]).to_multiset() == rest.to_multiset().insert(s[0]));
    }
}

/// Sorting is stable: what is sorted already stays as it is.
pub proof fn law_sort_keeps_sorted(s: Seq<RecordView>)
    requires
        is_sorted(s),
    ensures
        sorted_by_name(s) == s,
    decreases s.len(),
{
    if s.len() > 0 {
        let tail = s.drop_first();
        assert forall|i: int, j: int| #![trigger tail[i], tail[j]] 0 <= i < j < tail.len() implies !key_lt(
            tail[j].name,
            tail[i].name,
        ) by {
            assert(tail[i] == s[i + 1] && tail[j] == s[j + 1]);
        }
        law_sort_keeps_sorted(tail);
        assert(is_boundary(tail, s[0].name, 0)) by {
            assert forall|j: int| 0 <= j < tail.len() implies !key_lt((#[trigger] tail[j]).name, s[0].name) by {
                assert(tail[j] == s[j + 1]);
            }
        }
        lemma_rank_is_boundary(tail, s[0].name);
        lemma_boundary_unique(tail, s[0].name, 0, rank(tail, s[0].name));
        assert(tail.insert(0, s[0]) =~= s);
    }
}

/// No two records have the same name.
pub open spec fn names_differ(s: Seq<RecordView>) -> bool {
    forall|i: int, j: int| #![trigger s[i], s[j]] 0 <= i < j < s.len() ==> s[i].name != s[j].name
}

/// Records of different names sort into strictly increasing order.
pub proof fn law_sort_of_different_names(s: Seq<RecordView>)
    requires
        names_differ(s),
    ensures
        is_strictly_sorted(sorted_by_name(s)),
    decreases s.len(),
{
    if s.len() > 0 {
        let tail = s.drop_first();
        let rest = sorted_by_name(tail);
        let at = rank(rest, s[0].name);
        let t = sorted_by_name(s);
        assert forall|i: int, j: int| #![trigger tail[i], tail[j]] 0 <= i < j < tail.len() implies tail[i].name
            != tail[j].name by {
            assert(tail[i] == s[i + 1] && tail[j] == s[j + 1]);
        }
        law_sort_of_different_names(tail);
        law_sort_arranges(tail);
        lemma_rank_is_boundary(rest, s[0].name);
        assert forall|i: int, j: int| #![trigger t[i], t[j]] 0 <= i < j < t.len() implies key_lt(
            t[i].name,
            t[j].name,
        ) by {
            if j == at {
                assert(t[i] == rest[i]);
            } else if i == at {
                assert(t[j] == rest[j - 1]);
                let src = lemma_sort_source(tail, j - 1);
                assert(tail[src] == s[src + 1]);
                assert(s[0].name != s[src + 1].name);
                lemma_key_total(s[0].name, rest[j - 1].name);
            } else {
                let oi = if i < at { i } else { i - 1 };
                let oj = if j < at { j } else { j - 1 };
                assert(t[i] == rest[oi] && t[j] == rest[oj]);
            }
        }
    }
}

/// The names of the entries strictly increase.
pub open spec fn names_increase(entries: Seq<(Seq<char>, Seq<char>)>) -> bool {
    forall|i: int, j: int| #![trigger entries[i], entries[j]] 0 <= i < j < entries.len() ==> text_lt(
        entries[i].0,
        entries[j].0,
    )
}

/// Each entry comes from a record with that name and that value.
proof fn lemma_entry_source(s: Seq<RecordView>, k: int) -> (i: int)
    requires
        0 <= k < live_entries(s).len(),
    ensures
        0 <= i < s.len(),
        s[i].name == Some(live_entries(s)[k].0),
        s[i].value == Some(live_entries(s)[k].1),
    decreases s.len(),
{
    let head = s.drop_last();
    if k < live_entries(head).len() {
        let i = lemma_entry_source(head, k);
        assert(head[i] == s[i]);
        i
    } else {
        s.len() - 1
    }
}

/// Enumerating an index whose names strictly increase yields names in
/// strictly increasing order, so none twice.
pub proof fn law_entries_in_order(s: Seq<RecordView>)
    requires
        is_strictly_sorted(s),
    ensures
        names_increase(live_entries(s)),
    decreases s.len(),
{
    if s.len() > 0 {
        let head = s.drop_last();
        let entries = live_entries(s);
        assert forall|i: int, j: int| #![trigger head[i], head[j]] 0 <= i < j < head.len() implies key_lt(
            head[i].name,
            head[j].name,
        ) by {
            assert(head[i] == s[i] && head[j] == s[j]);
        }
        law_entries_in_order(head);
        assert forall|i: int, j: int| #![trigger entries[i], entries[j]] 0 <= i < j
            < entries.len() implies text_lt(entries[i].0, entries[j].0) by {
            if j < live_entries(head).len() {
                assert(entries[i] == live_entries(head)[i] && entries[j] == live_entries(head)[j]);
            } else {
                assert(entries[i] == live_entries(head)[i]);
                let src = lemma_entry_source(head, i);
                assert(head[src] == s[src]);
                assert(key_lt(s[src].name, s[s.len() - 1].name));
            }
        }
    }
}

/// One change to the store: a property set, or a property deleted.
pub enum Edit {
    Write { name: Seq<char>, value: Seq<char> },
    Delete { name: Seq<char> },
}

impl Edit {
    /// The name that the edit is about.
    pub open spec fn name(self) -> Seq<char> {
        match self {
            Edit::Write { name, .. } => name,
            Edit::Delete { name } => name,
        }
    }
}

/// The index after a run of edits, the first of them made first.
pub open spec fn edited(s: Seq<RecordView>, edits: Seq<Edit>) -> Seq<RecordView>
    decreases edits.len(),
{
    if edits.len() == 0 {
        s
    } else {
        let before = edited(s, edits.drop_last());
        match edits.last() {
            Edit::Write { name, value } => with_property(before, name, value),
            Edit::Delete { name } => without_property(before, name),
        }
    }
}

/// Whatever is set and deleted, in whatever order, a sorted index stays
/// sorted.
pub proof fn law_edits_keep_sorted(s: Seq<RecordView>, edits: Seq<Edit>)
    requires
        is_sorted(s),
    ensures
        is_sorted(edited(s, edits)),
    decreases edits.len(),
{
    if edits.len() > 0 {
        law_edits_keep_sorted(s, edits.drop_last());
        lemma_edit_keeps_sorted(edited(s, edits.drop_last()), edits.last().name(), Seq::empty());
        if let Edit::Write { name, value } = edits.last() {
            lemma_edit_keeps_sorted(edited(s, edits.drop_last()), name, value);
        }
    }
}

/// Whatever is set and deleted, in whatever order, names that strictly
/// increased still do, and enumerating yields them in that order, none
/// twice.
pub proof fn law_edits_keep_order(s: Seq<RecordView>, edits: Seq<Edit>)
    requires
        is_strictly_sorted(s),
    ensures
        is_strictly_sorted(edited(s, edits)),
        names_increase(live_entries(edited(s, edits))),
    decreases edits.len(),
{
    if edits.len() > 0 {
        law_edits_keep_order(s, edits.drop_last());
        match edits.last() {
            Edit::Write { name, value } => law_write_keeps_order(
                edited(s, edits.drop_last()),
                name,
                value,
            ),
            Edit::Delete { name } => law_delete_keeps_order(edited(s, edits.drop_last()), name),
        }
    }
    law_entries_in_order(edited(s, edits));
}

/// What was written is read back, whatever else was written in between and
/// in whatever order: after a run of edits, a name holds the value of the
/// last edit that set it, if no later edit is about that name.
pub proof fn law_last_write_is_read(s: Seq<RecordView>, edits: Seq<Edit>, k: int)
    requires
        is_sorted(s),
        0 <= k < edits.len(),
        edits[k] is Write,
        forall|j: int| k < j < edits.len() ==> (#[trigger] edits[j]).name() != edits[k].name(),
    ensures
        value_of(edited(s, edits), edits[k].name()) == Some(edits[k]->Write_value),
    decreases edits.len(),
{
    let before = edited(s, edits.drop_last());
    law_edits_keep_sorted(s, edits.drop_last());
    if k == edits.len() - 1 {
        law_write_then_read(before, edits[k].name(), edits[k]->Write_value);
    } else {
        assert(edits.drop_last()[k] == edits[k]);
        assert forall|j: int| k < j < edits.drop_last().len() implies (#[trigger] edits.drop_last()[j]).name()
            != edits.drop_last()[k].name() by {
            assert(edits.drop_last()[j] == edits[j]);
        }
        law_last_write_is_read(s, edits.drop_last(), k);
        let last = edits[edits.len() - 1];
        assert(last.name() != edits[k].name());
        match last {
            Edit::Write { name, value } => law_write_keeps_others(before, name, value, edits[k].name()),
            Edit::Delete { name } => law_delete_keeps_others(before, name, edits[k].name()),
        }
    }
}

/// A property that was deleted stays gone until it is set again.
pub proof fn law_last_delete_is_read(s: Seq<RecordView>, edits: Seq<Edit>, k: int)
    requires
        is_strictly_sorted(s),
        0 <= k < edits.len(),
        edits[k] is Delete,
        forall|j: int| k < j < edits.len() ==> (#[trigger] edits[j]).name() != edits[k].name(),
    ensures
        value_of(edited(s, edits), edits[k].name()) is None,
    decreases edits.len(),
{
    let before = edited(s, edits.drop_last());
    law_edits_keep_order(s, edits.drop_last());
    lemma_strict_is_sorted(before);
    if k == edits.len() - 1 {
        law_delete_twice(before, edits[k].name());
    } else {
        assert(edits.drop_last()[k] == edits[k]);
        assert forall|j: int| k < j < edits.drop_last().len() implies (#[trigger] edits.drop_last()[j]).name()
            != edits.drop_last()[k].name() by {
            assert(edits.drop_last()[j] == edits[j]);
        }
        law_last_delete_is_read(s, edits.drop_last(), k);
        let last = edits[edits.len() - 1];
        assert(last.name() != edits[k].name());
        match last {
            Edit::Write { name, value } => law_write_keeps_others(before, name, value, edits[k].name()),
            Edit::Delete { name } => law_delete_keeps_others(before, name, edits[k].name()),
        }
    }
}

/// Where another name is found after `name` was set: where it was found
/// before, one place on if a new record went in before it.
pub proof fn lemma_found_after_write(
    s: Seq<RecordView>,
    name: Seq<char>,
    value: Seq<char>,
    other: Seq<char>,
)
    requires
        is_sorted(s),
        other != name,
    ensures
        ({
            let shift = if found_at(s, name) is Err && key_lt(Some(name), Some(other)) {
                1int
            } else {
                0int
            };
            &&& found_at(with_property(s, name, value), other) == match found_at(s, other) {
                Ok(at) => Ok::<int, int>(at + shift),
                Err(at) => Err::<int, int>(at + shift),
            }
            &&& found_at(s, other) matches Ok(at) ==> with_property(s, name, value)[at + shift]
                == s[at]
        }),
{
    let key = Some(name);
    let wanted = Some(other);
    let at = rank(s, key);
    let place = rank(s, wanted);
    let record = RecordView { name: key, value: Some(value) };
    let t = with_property(s, name, value);
    lemma_rank_is_boundary(s, key);
    lemma_rank_is_boundary(s, wanted);
    lemma_key_total(key, wanted);
    match found_at(s, name) {
        Ok(_) => {
            assert forall|i: int| 0 <= i < s.len() implies (#[trigger] s[i]).name == t[i].name by {}
            lemma_rank_same_names(s, t, wanted);
        },
        Err(_) => {
            lemma_rank_insert(s, at, record, wanted);
            if key_lt(key, wanted) {
                if place < at {
                    assert(key_lt(s[place].name, key));
                    lemma_key_transitive(s[place].name, key, wanted);
                }
                if place < s.len() {
                    assert(t[place + 1] == s[place]);
                }
            } else {
                if at < place {
                    assert(key_lt(s[at].name, wanted));
                    lemma_key_transitive(s[at].name, wanted, key);
                }
                if place < at {
                    assert(t[place] == s[place]);
                } else if at < s.len() {
                    assert(!key_lt(s[at].name, key));
                }
            }
        },
    }
}

/// The ranks of two names stand as the names do.
proof fn lemma_rank_monotonic(s: Seq<RecordView>, a: Option<Seq<char>>, b: Option<Seq<char>>)
    requires
        is_sorted(s),
        key_lt(a, b),
    ensures
        rank(s, a) <= rank(s, b),
        rank(s, a) < s.len() && s[rank(s, a)].name == a ==> rank(s, a) < rank(s, b),
{
    let ra = rank(s, a);
    let rb = rank(s, b);
    lemma_rank_is_boundary(s, a);
    lemma_rank_is_boundary(s, b);
    if rb < ra {
        assert(key_lt(s[rb].name, a));
        lemma_key_transitive(s[rb].name, a, b);
    }
}

/// Two sets of different names give the same index in either order, where
/// the first name comes before the second.
proof fn lemma_writes_commute_in_order(
    s: Seq<RecordView>,
    a: Seq<char>,
    x: Seq<char>,
    b: Seq<char>,
    y: Seq<char>,
)
    requires
        is_sorted(s),
        key_lt(Some(a), Some(b)),
    ensures
        with_property(with_property(s, a, x), b, y) == with_property(with_property(s, b, y), a, x),
{
    let first = RecordView { name: Some(a), value: Some(x) };
    let second = RecordView { name: Some(b), value: Some(y) };
    let ra = rank(s, Some(a));
    let rb = rank(s, Some(b));
    lemma_key_irreflexive(Some(a));
    lemma_key_asymmetric(Some(a), Some(b));
    lemma_rank_is_boundary(s, Some(a));
    lemma_rank_is_boundary(s, Some(b));
    lemma_rank_monotonic(s, Some(a), Some(b));
    lemma_found_after_write(s, a, x, b);
    lemma_found_after_write(s, b, y, a);
    let left = with_property(with_property(s, a, x), b, y);
    let right = with_property(with_property(s, b, y), a, x);
    match (found_at(s, a), found_at(s, b)) {
        (Ok(_), Ok(_)) => {
            assert(left == s.update(ra, first).update(rb, second));
            assert(right == s.update(rb, second).update(ra, first));
            assert(left =~= right);
        },
        (Ok(_), Err(_)) => {
            assert(left == s.update(ra, first).insert(rb, second));
            assert(right == s.insert(rb, second).update(ra, first));
            assert(left =~= right);
        },
        (Err(_), Ok(_)) => {
            assert(left == s.insert(ra, first).update(rb + 1, second));
            assert(right == s.update(rb, second).insert(ra, first));
            assert(left =~= right);
        },
        (Err(_), Err(_)) => {
            assert(left == s.insert(ra, first).insert(rb + 1, second));
            assert(right == s.insert(rb, second).insert(ra, first));
            assert(left =~= right);
        },
    }
}

/// The index does not depend on the order of writes: two sets of different
/// names give the same index whichever is made first.
pub proof fn law_writes_commute(
    s: Seq<RecordView>,
    a: Seq<char>,
    x: Seq<char>,
    b: Seq<char>,
    y: Seq<char>,
)
    requires
        is_sorted(s),
        a != b,
    ensures
        with_property(with_property(s, a, x), b, y) == with_property(with_property(s, b, y), a, x),
{
    lemma_key_total(Some(a), Some(b));
    if key_lt(Some(a), Some(b)) {
        lemma_writes_commute_in_order(s, a, x, b, y);
    } else {
        lemma_writes_commute_in_order(s, b, y, a, x);
    }
}

} // verus!
