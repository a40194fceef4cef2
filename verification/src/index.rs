//! The property index: the records of a container kept sorted by name, with
//! lookup by binary search, ordered insertion and removal.

use vstd::prelude::*;
use crate::error::StoreError;
use crate::record::{
    key_before, key_lt, lemma_key_asymmetric, lemma_key_le_lt, lemma_key_total, name_of, pairs_of,
    text_of, text_of_str, views_of, Property, PropertyRecord, RecordView,
};

verus! {

/// No record is followed by one whose name comes before its own.
pub open spec fn is_sorted(s: Seq<RecordView>) -> bool {
    forall|i: int, j: int| #![trigger s[i], s[j]] 0 <= i < j < s.len() ==> !key_lt(s[j].name, s[i].name)
}

/// Names strictly increase: sorted, and no name occurs twice.
pub open spec fn is_strictly_sorted(s: Seq<RecordView>) -> bool {
    forall|i: int, j: int| #![trigger s[i], s[j]] 0 <= i < j < s.len() ==> key_lt(s[i].name, s[j].name)
}

/// How many records of `s` have a name that comes before `key`. In a sorted
/// `s` this is the place of the first record whose name does not.
pub open spec fn rank(s: Seq<RecordView>, key: Option<Seq<char>>) -> int
    decreases s.len(),
{
    if s.len() == 0 {
        0
    } else {
        rank(s.drop_last(), key) + if key_lt(s.last().name, key) {
            1int
        } else {
            0int
        }
    }
}

/// `at` parts `s` in two: the names before it come before `key`, those from
/// it on do not.
pub open spec fn is_boundary(s: Seq<RecordView>, key: Option<Seq<char>>, at: int) -> bool {
    &&& 0 <= at <= s.len()
    &&& forall|j: int| 0 <= j < at ==> key_lt((#[trigger] s[j]).name, key)
    &&& forall|j: int| at <= j < s.len() ==> !key_lt((#[trigger] s[j]).name, key)
}

/// Where `name` is in a sorted `s`: `Ok` with the place of the first record
/// of that name, or `Err` with the place at which a record of that name
/// keeps `s` sorted.
pub open spec fn found_at(s: Seq<RecordView>, name: Seq<char>) -> Result<int, int> {
    let at = rank(s, Some(name));
    if at < s.len() && s[at].name == Some(name) {
        Ok(at)
    } else {
        Err(at)
    }
}

/// The value recorded under `name`, if a record of that name has one.
pub open spec fn value_of(s: Seq<RecordView>, name: Seq<char>) -> Option<Seq<char>> {
    match found_at(s, name) {
        Ok(at) => s[at].value,
        Err(_) => None,
    }
}

/// `s` after `name` is set to `value`: the record of that name takes the
/// value, or a new record goes in where it keeps `s` sorted.
pub open spec fn with_property(s: Seq<RecordView>, name: Seq<char>, value: Seq<char>) -> Seq<
    RecordView,
> {
    match found_at(s, name) {
        Ok(at) => s.update(at, RecordView { name: Some(name), value: Some(value) }),
        Err(at) => s.insert(at, RecordView { name: Some(name), value: Some(value) }),
    }
}

/// `s` without the record of `name`; `s` itself where there is none.
pub open spec fn without_property(s: Seq<RecordView>, name: Seq<char>) -> Seq<RecordView> {
    match found_at(s, name) {
        Ok(at) => s.remove(at),
        Err(_) => s,
    }
}

/// The records of `s` in the order of their names; records of one name keep
/// the order they had in `s`.
pub open spec fn sorted_by_name(s: Seq<RecordView>) -> Seq<RecordView>
    decreases s.len(),
{
    if s.len() == 0 {
        s
    } else {
        let rest = sorted_by_name(s.drop_first());
        rest.insert(rank(rest, s[0].name), s[0])
    }
}

/// The properties that `s` holds: its records with both a name and a value,
/// in the order of `s`.
pub open spec fn live_entries(s: Seq<RecordView>) -> Seq<(Seq<char>, Seq<char>)>
    decreases s.len(),
{
    if s.len() == 0 {
        Seq::empty()
    } else {
        let rest = live_entries(s.drop_last());
        match (s.last().name, s.last().value) {
            (Some(name), Some(value)) => rest.push((name, value)),
            _ => rest,
        }
    }
}

/// A sequence has at most one boundary for a key.
pub proof fn lemma_boundary_unique(s: Seq<RecordView>, key: Option<Seq<char>>, a: int, b: int)
    requires
        is_boundary(s, key, a),
        is_boundary(s, key, b),
    ensures
        a == b,
{
    if a < b {
        assert(key_lt(s[a].name, key));
    } else if b < a {
        assert(key_lt(s[b].name, key));
    }
}

/// In a sorted sequence the rank of a key is its boundary.
pub proof fn lemma_rank_is_boundary(s: Seq<RecordView>, key: Option<Seq<char>>)
    requires
        is_sorted(s),
    ensures
        is_boundary(s, key, rank(s, key)),
    decreases s.len(),
{
    if s.len() > 0 {
        let head = s.drop_last();
        let last = s.len() - 1;
        assert forall|i: int, j: int| #![trigger head[i], head[j]] 0 <= i < j < head.len() implies !key_lt(
            head[j].name,
            head[i].name,
        ) by {
            assert(head[i] == s[i] && head[j] == s[j]);
        }
        lemma_rank_is_boundary(head, key);
        let r = rank(head, key);
        if key_lt(s.last().name, key) {
            if r < last {
                assert(!key_lt(head[r].name, key));
                assert(head[r] == s[r]);
                assert(!key_lt(s[last].name, s[r].name));
                lemma_key_le_lt(s[r].name, s[last].name, key);
            }
            assert forall|j: int| 0 <= j < r + 1 implies key_lt((#[trigger] s[j]).name, key) by {
                if j < last {
                    assert(head[j] == s[j]);
                }
            }
        } else {
            assert forall|j: int| 0 <= j < r implies key_lt((#[trigger] s[j]).name, key) by {
                assert(head[j] == s[j]);
            }
            assert forall|j: int| r <= j < s.len() implies !key_lt((#[trigger] s[j]).name, key) by {
                if j < last {
                    assert(head[j] == s[j]);
                }
            }
        }
    }
}

/// A record put at the boundary of its name keeps a sorted sequence sorted.
pub proof fn lemma_insert_keeps_sorted(s: Seq<RecordView>, record: RecordView, at: int)
    requires
        is_sorted(s),
        is_boundary(s, record.name, at),
    ensures
        is_sorted(s.insert(at, record)),
{
    let t = s.insert(at, record);
    assert forall|i: int, j: int| #![trigger t[i], t[j]] 0 <= i < j < t.len() implies !key_lt(
        t[j].name,
        t[i].name,
    ) by {
        if j == at {
            assert(t[i] == s[i]);
            lemma_key_asymmetric(s[i].name, record.name);
        } else if i == at {
            assert(t[j] == s[j - 1]);
        } else {
            let oi = if i < at { i } else { i - 1 };
            let oj = if j < at { j } else { j - 1 };
            assert(t[i] == s[oi] && t[j] == s[oj]);
        }
    }
}

/// Removing a record keeps a sorted sequence sorted.
pub proof fn lemma_remove_keeps_sorted(s: Seq<RecordView>, at: int)
    requires
        is_sorted(s),
        0 <= at < s.len(),
    ensures
        is_sorted(s.remove(at)),
{
    let t = s.remove(at);
    assert forall|i: int, j: int| #![trigger t[i], t[j]] 0 <= i < j < t.len() implies !key_lt(
        t[j].name,
        t[i].name,
    ) by {
        let oi = if i < at { i } else { i + 1 };
        let oj = if j < at { j } else { j + 1 };
        assert(t[i] == s[oi] && t[j] == s[oj]);
    }
}

/// A record that takes the place of one of the same name keeps a sorted
/// sequence sorted.
pub proof fn lemma_update_keeps_sorted(s: Seq<RecordView>, at: int, record: RecordView)
    requires
        is_sorted(s),
        0 <= at < s.len(),
        s[at].name == record.name,
    ensures
        is_sorted(s.update(at, record)),
{
    let t = s.update(at, record);
    assert forall|i: int, j: int| #![trigger t[i], t[j]] 0 <= i < j < t.len() implies !key_lt(
        t[j].name,
        t[i].name,
    ) by {
        assert(t[i].name == s[i].name && t[j].name == s[j].name);
    }
}

/// The index of a container: its records, sorted by name.
pub struct PropertyIndex {
    records: Vec<PropertyRecord>,
}

impl View for PropertyIndex {
    type V = Seq<RecordView>;

    closed spec fn view(&self) -> Seq<RecordView> {
        views_of(self.records@)
    }
}

/// The place in a sorted run of records of the first whose name does not
/// come before `key`.
fn rank_of(records: &Vec<PropertyRecord>, key: Option<&str>) -> (at: usize)
    requires
        is_sorted(views_of(records@)),
    ensures
        at as int == rank(views_of(records@), text_of_str(key)),
        at <= records.len(),
{
    let ghost s = views_of(records@);
    let ghost k = text_of_str(key);
    let mut lo: usize = 0;
    let mut hi: usize = records.len();
    while lo < hi
        invariant
            lo <= hi <= records.len(),
            s == views_of(records@),
            k == text_of_str(key),
            is_sorted(s),
            forall|j: int| 0 <= j < lo ==> key_lt((#[trigger] s[j]).name, k),
            forall|j: int| hi <= j < s.len() ==> !key_lt((#[trigger] s[j]).name, k),
        decreases hi - lo,
    {
        let mid = lo + (hi - lo) / 2;
        if key_before(name_of(&records[mid]), key) {
            assert forall|j: int| 0 <= j < mid + 1 implies key_lt((#[trigger] s[j]).name, k) by {
                if j < mid {
                    assert(!key_lt(s[mid as int].name, s[j].name));
                    lemma_key_le_lt(s[j].name, s[mid as int].name, k);
                }
            }
            lo = mid + 1;
        } else {
            assert forall|j: int| mid <= j < s.len() implies !key_lt((#[trigger] s[j]).name, k) by {
                if mid < j && key_lt(s[j].name, k) {
                    assert(!key_lt(s[j].name, s[mid as int].name));
                    lemma_key_le_lt(s[mid as int].name, s[j].name, k);
                }
            }
            hi = mid;
        }
    }
    proof {
        lemma_rank_is_boundary(s, k);
        lemma_boundary_unique(s, k, lo as int, rank(s, k));
    }
    lo
}

impl PropertyIndex {
    #[verifier::type_invariant]
    spec fn sorted(self) -> bool {
        is_sorted(views_of(self.records@))
    }

    /// An index without records.
    pub fn new() -> (index: Self)
        ensures
            index@ == Seq::<RecordView>::empty(),
    {
        let index = PropertyIndex { records: Vec::new() };
        assert(index@ =~= Seq::<RecordView>::empty());
        index
    }

    /// The index of the records that a container was found to hold: the same
    /// records, sorted by name.
    pub fn decode(records: Vec<PropertyRecord>) -> (index: Self)
        ensures
            index@ == sorted_by_name(views_of(records@)),
            is_sorted(index@),
    {
        let ghost all = views_of(records@);
        let mut input = records;
        let mut out: Vec<PropertyRecord> = Vec::new();
        assert(all.skip(all.len() as int) =~= Seq::<RecordView>::empty());
        assert(views_of(out@) =~= Seq::<RecordView>::empty());
        while input.len() > 0
            invariant
                input@.len() <= all.len(),
                views_of(input@) == all.take(input@.len() as int),
                views_of(out@) == sorted_by_name(all.skip(input@.len() as int)),
                is_sorted(views_of(out@)),
            decreases input.len(),
        {
            let ghost n = input@.len() as int;
            let record = input.pop().unwrap();
            let at = rank_of(&out, name_of(&record));
            proof {
                let rest = views_of(out@);
                assert(record@ == all[n - 1]) by {
                    assert(all.take(n)[n - 1] == all[n - 1]);
                }
                assert(all.skip(n - 1).drop_first() =~= all.skip(n));
                assert(all.skip(n - 1)[0] == all[n - 1]);
                lemma_rank_is_boundary(rest, record@.name);
                lemma_insert_keeps_sorted(rest, record@, at as int);
                assert(views_of(input@) =~= all.take(n - 1));
                assert(views_of(out@.insert(at as int, record)) =~= rest.insert(at as int, record@));
            }
            out.insert(at, record);
        }
        assert(all.skip(0) =~= all);
        PropertyIndex { records: out }
    }

    /// The number of records.
    pub fn len(&self) -> (n: usize)
        ensures
            n == self@.len(),
    {
        self.records.len()
    }

    /// The records, in the order of their names.
    pub fn records(&self) -> (records: &Vec<PropertyRecord>)
        ensures
            views_of(records@) == self@,
            is_sorted(self@),
    {
        proof {
            use_type_invariant(self);
        }
        &self.records
    }

    /// The records, in the order of their names, as they go back into the
    /// container.
    pub fn into_records(self) -> (records: Vec<PropertyRecord>)
        ensures
            views_of(records@) == self@,
            is_sorted(self@),
    {
        proof {
            use_type_invariant(&self);
        }
        self.records
    }

    /// Binary search for `name`: `Ok` with the place of its record, or `Err`
    /// with the place at which a record of that name keeps the index sorted.
    pub fn find_index(&self, name: &str) -> (found: Result<usize, usize>)
        ensures
            match found {
                Ok(at) => found_at(self@, name@) == Ok::<int, int>(at as int),
                Err(at) => found_at(self@, name@) == Err::<int, int>(at as int),
            },
            is_sorted(self@),
    {
        proof {
            use_type_invariant(self);
        }
        let at = rank_of(&self.records, Some(name));
        proof {
            lemma_rank_is_boundary(self@, Some(name@));
        }
        if at < self.records.len() {
            match name_of(&self.records[at]) {
                Some(n) => {
                    if key_before(Some(name), Some(n)) {
                        Err(at)
                    } else {
                        proof {
                            lemma_key_total(Some(name@), Some(n@));
                        }
                        Ok(at)
                    }
                },
                None => Err(at),
            }
        } else {
            Err(at)
        }
    }

    /// The record of `name`.
    pub fn find(&self, name: &str) -> (found: Result<&PropertyRecord, StoreError>)
        ensures
            match found {
                Ok(record) => found_at(self@, name@) is Ok && record@ == self@[found_at(
                    self@,
                    name@,
                )->Ok_0],
                Err(e) => found_at(self@, name@) is Err && e == StoreError::NotFound,
            },
    {
        match self.find_index(name) {
            Ok(at) => Ok(&self.records[at]),
            Err(_) => Err(StoreError::NotFound),
        }
    }

    /// The value recorded under `name`, if there is one.
    pub fn lookup(&self, name: &str) -> (value: Option<String>)
        ensures
            text_of(value) == value_of(self@, name@),
    {
        match self.find_index(name) {
            Ok(at) => match &self.records[at].value {
                Some(v) => Some(v.clone()),
                None => None,
            },
            Err(_) => None,
        }
    }

    /// Sets `name` to `value`: the record of that name takes the value, or a
    /// new record goes in where it keeps the index sorted.
    pub fn upsert(&mut self, name: &str, value: &str)
        ensures
            final(self)@ == with_property(old(self)@, name@, value@),
            is_sorted(final(self)@),
    {
        let found = self.find_index(name);
        let mut records: Vec<PropertyRecord> = Vec::new();
        core::mem::swap(&mut records, &mut self.records);
        let ghost before = views_of(records@);
        let record = PropertyRecord { name: Some(name.to_owned()), value: Some(value.to_owned()) };
        match found {
            Ok(at) => {
                proof {
                    lemma_update_keeps_sorted(before, at as int, record@);
                    assert(views_of(records@.update(at as int, record)) =~= before.update(
                        at as int,
                        record@,
                    ));
                }
                records.set(at, record);
            },
            Err(at) => {
                proof {
                    lemma_rank_is_boundary(before, Some(name@));
                    lemma_insert_keeps_sorted(before, record@, at as int);
                    assert(views_of(records@.insert(at as int, record)) =~= before.insert(
                        at as int,
                        record@,
                    ));
                }
                records.insert(at, record);
            },
        }
        self.records = records;
    }

    /// Removes the record of `name`, and says whether there was one.
    pub fn remove(&mut self, name: &str) -> (removed: bool)
        ensures
            removed == (found_at(old(self)@, name@) is Ok),
            final(self)@ == without_property(old(self)@, name@),
            is_sorted(final(self)@),
    {
        match self.find_index(name) {
            Ok(at) => {
                let mut records: Vec<PropertyRecord> = Vec::new();
                core::mem::swap(&mut records, &mut self.records);
                proof {
                    lemma_remove_keeps_sorted(views_of(records@), at as int);
                    assert(views_of(records@.remove(at as int)) =~= views_of(records@).remove(
                        at as int,
                    ));
                }
                records.remove(at);
                self.records = records;
                true
            },
            Err(_) => false,
        }
    }

    /// The properties that the index holds, in the order of their names:
    /// one for each record that has both a name and a value.
    pub fn entries(&self) -> (all: Vec<Property>)
        ensures
            pairs_of(all@) == live_entries(self@),
    {
        let mut all: Vec<Property> = Vec::new();
        let mut i: usize = 0;
        assert(pairs_of(all@) =~= live_entries(self@.take(0)));
        while i < self.records.len()
            invariant
                i <= self.records.len(),
                pairs_of(all@) == live_entries(self@.take(i as int)),
            decreases self.records.len() - i,
        {
            let record = &self.records[i];
            proof {
                assert(self@.take(i + 1).drop_last() =~= self@.take(i as int));
                assert(self@.take(i + 1).last() == self@[i as int]);
            }
            match (&record.name, &record.value) {
                (Some(name), Some(value)) => {
                    let property = Property { name: name.clone(), value: value.clone() };
                    assert(pairs_of(all@.push(property)) =~= pairs_of(all@).push(property@));
                    all.push(property);
                },
                _ => {},
            }
            i += 1;
        }
        assert(self@.take(self@.len() as int) =~= self@);
        all
    }
}

} // verus!
