//! The store side of one class: the atomic save and delete, the unique and secondary
//! indices they keep, and the counter, list and set properties of its objects.
//!
//! Each operation runs as one indivisible step: it either fails and leaves the store
//! as it was, or makes all of its changes.
//!
//! This is an in-memory model of what the store-side operations do, run in one
//! process. What is proved here holds of this model; a deployment against a remote
//! server runs scripts on that server, which nothing here checks.
use vstd::prelude::*;
use crate::decoder::{attribute_pairs, find_key, lookup, pairs_of, pairs_view};
use crate::encoder::Encoder;
use crate::persist::{index_entries, index_view, is_unknown_index, uniques_indices, unique_entries, OhmerError};
use crate::slots::{find_slot, put_slot, slot_value, Slot};
use crate::text::{same_text, texts, usize_text};

verus! {

/// An index entry: a field (or record key) and value, and the id it points at.
pub struct Entry {
    pub key: String,
    pub value: String,
    pub id: usize,
}

pub open spec fn entries_view(v: Seq<Entry>) -> Seq<(Seq<char>, Seq<char>, usize)> {
    v.map_values(|e: Entry| (e.key@, e.value@, e.id))
}

/// The entries that do not point at `id`.
pub open spec fn without_id(es: Seq<(Seq<char>, Seq<char>, usize)>, id: usize) -> Seq<
    (Seq<char>, Seq<char>, usize),
>
    decreases es.len(),
{
    if es.len() == 0 {
        es
    } else if es.last().2 == id {
        without_id(es.drop_last(), id)
    } else {
        without_id(es.drop_last(), id).push(es.last())
    }
}

/// The unique entries of an object, pointing at `id`.
pub open spec fn unique_tagged(u: Seq<(Seq<char>, Seq<char>)>, id: usize) -> Seq<
    (Seq<char>, Seq<char>, usize),
> {
    u.map_values(|p: (Seq<char>, Seq<char>)| (p.0, p.1, id))
}

/// The index entries of an object, one per value, pointing at `id`.
pub open spec fn index_tagged(x: Seq<(Seq<char>, Seq<Seq<char>>)>, id: usize) -> Seq<
    (Seq<char>, Seq<char>, usize),
>
    decreases x.len(),
{
    if x.len() == 0 {
        Seq::empty()
    } else {
        index_tagged(x.drop_last(), id) + x.last().1.map_values(
            |v: Seq<char>| (x.last().0, v, id),
        )
    }
}

/// The first unique entry of the object that another id already holds.
pub open spec fn conflict(
    es: Seq<(Seq<char>, Seq<char>, usize)>,
    u: Seq<(Seq<char>, Seq<char>)>,
    id: usize,
) -> Option<Seq<char>>
    decreases u.len(),
{
    if u.len() == 0 {
        None
    } else if exists|i: int|
        0 <= i < es.len() && es[i].0 == u[0].0 && es[i].1 == u[0].1 && es[i].2 != id {
        Some(u[0].0)
    } else {
        conflict(es, u.skip(1), id)
    }
}

/// No two entries hold the same field and value for different ids.
pub open spec fn unique_consistent(es: Seq<(Seq<char>, Seq<char>, usize)>) -> bool {
    forall|a: (Seq<char>, Seq<char>, usize), b: (Seq<char>, Seq<char>, usize)|
        #[trigger] es.contains(a) && #[trigger] es.contains(b) && a.0 == b.0 && a.1 == b.1 ==> a.2 == b.2
}

/// The ids an index holds for `(key, value)`.
pub open spec fn holders(es: Seq<(Seq<char>, Seq<char>, usize)>, key: Seq<char>, value: Seq<char>) -> Set<usize> {
    Set::new(|id: usize| es.contains((key, value, id)))
}

pub open spec fn counter_value(s: Seq<Slot<i64>>, id: usize, prop: Seq<char>) -> i64 {
    match slot_value(s, id, prop) {
        Some(v) => v,
        None => 0,
    }
}

pub open spec fn ids_value(s: Seq<Slot<Vec<usize>>>, id: usize, prop: Seq<char>) -> Seq<usize> {
    match slot_value(s, id, prop) {
        Some(v) => v@,
        None => Seq::empty(),
    }
}

/// The class name and the declared unique and indexed fields are as in `s0`.
pub open spec fn same_schema(s1: Store, s0: Store) -> bool {
    &&& s1.class_name() == s0.class_name()
    &&& s1.unique_schema() == s0.unique_schema()
    &&& s1.index_schema() == s0.index_schema()
}

/// The schema, every record, the number of assigned ids, and the unique and index
/// entries are as in `s0`.
pub open spec fn same_objects(s1: Store, s0: Store) -> bool {
    &&& same_schema(s1, s0)
    &&& s1.assigned() == s0.assigned()
    &&& forall|k: nat| #[trigger] s1.record(k) == s0.record(k)
    &&& s1.unique_entries_view() == s0.unique_entries_view()
    &&& s1.index_entries_view() == s0.index_entries_view()
}

/// Every counter is as in `s0`.
pub open spec fn same_counters(s1: Store, s0: Store) -> bool {
    forall|o: usize, p: Seq<char>| #[trigger] s1.counter(o, p) == s0.counter(o, p)
}

/// Every list is as in `s0`.
pub open spec fn same_lists(s1: Store, s0: Store) -> bool {
    forall|o: usize, p: Seq<char>| #[trigger] s1.list(o, p) == s0.list(o, p)
}

/// Every set property is as in `s0`.
pub open spec fn same_members(s1: Store, s0: Store) -> bool {
    forall|o: usize, p: Seq<char>| #[trigger] s1.members(o, p) == s0.members(o, p)
}

/// What the store holds for one class.
pub struct Store {
    class: String,
    unique_fields: Vec<String>,
    index_fields: Vec<String>,
    /// The record of id `i + 1` at position `i`; `None` once deleted.
    records: Vec<Option<Vec<(String, String)>>>,
    uniques: Vec<Entry>,
    indices: Vec<Entry>,
    counters: Vec<Slot<i64>>,
    lists: Vec<Slot<Vec<usize>>>,
    sets: Vec<Slot<Vec<usize>>>,
}

pub open spec fn record_view(r: Option<Vec<(String, String)>>) -> Option<Seq<(Seq<char>, Seq<char>)>> {
    match r {
        Some(v) => Some(pairs_view(v@)),
        None => None,
    }
}

impl Store {
    pub closed spec fn class_name(&self) -> Seq<char> {
        self.class@
    }

    pub closed spec fn unique_schema(&self) -> Seq<Seq<char>> {
        texts(self.unique_fields@)
    }

    pub closed spec fn index_schema(&self) -> Seq<Seq<char>> {
        texts(self.index_fields@)
    }

    /// How many ids have been assigned.
    pub closed spec fn assigned(&self) -> nat {
        self.records@.len()
    }

    /// The record of `id`, while the object exists.
    pub closed spec fn record(&self, id: nat) -> Option<Seq<(Seq<char>, Seq<char>)>> {
        if 1 <= id <= self.records@.len() {
            record_view(self.records@[id - 1])
        } else {
            None
        }
    }

    /// The ids of the existing objects: the class's all-set.
    pub open spec fn live(&self) -> Set<usize> {
        Set::new(|id: usize| self.record(id as nat) is Some)
    }

    pub closed spec fn unique_entries_view(&self) -> Seq<(Seq<char>, Seq<char>, usize)> {
        entries_view(self.uniques@)
    }

    pub closed spec fn index_entries_view(&self) -> Seq<(Seq<char>, Seq<char>, usize)> {
        entries_view(self.indices@)
    }

    pub closed spec fn counter(&self, id: usize, prop: Seq<char>) -> i64 {
        counter_value(self.counters@, id, prop)
    }

    pub closed spec fn list(&self, id: usize, prop: Seq<char>) -> Seq<usize> {
        ids_value(self.lists@, id, prop)
    }

    pub closed spec fn members(&self, id: usize, prop: Seq<char>) -> Set<usize> {
        ids_value(self.sets@, id, prop).to_set()
    }

    pub closed spec fn wf(&self) -> bool {
        &&& forall|o: usize, p: Seq<char>|
            #[trigger] slot_value(self.sets@, o, p) matches Some(v) ==> v@.no_duplicates()
        &&& unique_consistent(entries_view(self.uniques@))
    }

    pub fn new(class: &str, unique_fields: Vec<String>, index_fields: Vec<String>) -> (r: Store)
        ensures
            r.wf(),
            r.class_name() == class@,
            r.unique_schema() == texts(unique_fields@),
            r.index_schema() == texts(index_fields@),
            r.assigned() == 0,
            r.unique_entries_view() == Seq::<(Seq<char>, Seq<char>, usize)>::empty(),
            r.index_entries_view() == Seq::<(Seq<char>, Seq<char>, usize)>::empty(),
            forall|id: usize, p: Seq<char>| #[trigger] r.counter(id, p) == 0,
            forall|id: usize, p: Seq<char>| #[trigger] r.list(id, p) == Seq::<usize>::empty(),
            forall|id: usize, p: Seq<char>| #[trigger] r.members(id, p) == Set::<usize>::empty(),
            forall|id: nat| #[trigger] r.record(id) is None,
    {
        let r = Store {
            class: String::from_str(class),
            unique_fields,
            index_fields,
            records: Vec::new(),
            uniques: Vec::new(),
            indices: Vec::new(),
            counters: Vec::new(),
            lists: Vec::new(),
            sets: Vec::new(),
        };
        assert(entries_view(r.uniques@) =~= Seq::empty());
        assert(entries_view(r.indices@) =~= Seq::empty());
        assert forall|id: usize, p: Seq<char>| #[trigger] r.members(id, p) == Set::<usize>::empty() by {
            assert(ids_value(r.sets@, id, p).to_set() =~= Set::<usize>::empty());
        }
        r
    }

    /// Everything but the record, unique and index data is as in `other`.
    pub closed spec fn same_properties(&self, other: &Store) -> bool {
        &&& self.class == other.class
        &&& self.unique_fields == other.unique_fields
        &&& self.index_fields == other.index_fields
        &&& self.counters == other.counters
        &&& self.lists == other.lists
        &&& self.sets == other.sets
    }

    /// Records, indices, sets and lists are as in `other`.
    pub closed spec fn same_but_counters(&self, other: &Store) -> bool {
        &&& self.class == other.class
        &&& self.unique_fields == other.unique_fields
        &&& self.index_fields == other.index_fields
        &&& self.records == other.records
        &&& self.uniques == other.uniques
        &&& self.indices == other.indices
        &&& self.lists == other.lists
        &&& self.sets == other.sets
    }

    /// Records, indices, counters and sets are as in `other`.
    pub closed spec fn same_but_lists(&self, other: &Store) -> bool {
        &&& self.class == other.class
        &&& self.unique_fields == other.unique_fields
        &&& self.index_fields == other.index_fields
        &&& self.records == other.records
        &&& self.uniques == other.uniques
        &&& self.indices == other.indices
        &&& self.counters == other.counters
        &&& self.sets == other.sets
    }

    /// Records, indices, counters and lists are as in `other`.
    pub closed spec fn same_but_sets(&self, other: &Store) -> bool {
        &&& self.class == other.class
        &&& self.unique_fields == other.unique_fields
        &&& self.index_fields == other.index_fields
        &&& self.records == other.records
        &&& self.uniques == other.uniques
        &&& self.indices == other.indices
        &&& self.counters == other.counters
        &&& self.lists == other.lists
    }

    /// The atomic save. A transient object (id 0) gets the next id; a persisted one
    /// keeps its id and has its record, unique entries and index entries replaced.
    /// Nothing changes when a declared field is missing, when the id was never
    /// assigned here, or when another object holds one of its unique values.
    pub fn save(&mut self, enc: &Encoder) -> (r: Result<usize, OhmerError>)
        requires
            old(self).wf(),
        ensures
            final(self).wf(),
            ({
                let ps = pairs_of(enc@.attributes);
                let s0 = *old(self);
                let s1 = *final(self);
                match unique_entries(ps, s0.unique_schema()) {
                    Err(f) => (r matches Err(e) && is_unknown_index(e, f)) && s1 == s0,
                    Ok(u) => match index_entries(ps, s0.index_schema()) {
                        Err(f) => (r matches Err(e) && is_unknown_index(e, f)) && s1 == s0,
                        Ok(x) => if enc@.id > s0.assigned() || (enc@.id == 0 && s0.assigned()
                            >= usize::MAX) {
                            (r matches Err(OhmerError::NotSaved)) && s1 == s0
                        } else {
                            let target = if enc@.id == 0 {
                                (s0.assigned() + 1) as usize
                            } else {
                                enc@.id as usize
                            };
                            match conflict(s0.unique_entries_view(), u, target) {
                                Some(f) => (r matches Err(OhmerError::UniqueIndexViolation(g))
                                    && g@ == f) && s1 == s0,
                                None => {
                                    &&& r == Ok::<usize, OhmerError>(target)
                                    &&& target > 0
                                    &&& s1.record(target as nat) == Some(ps)
                                    &&& forall|id: nat| id != target ==> #[trigger] s1.record(id) == s0.record(id)
                                    &&& s1.assigned() == if enc@.id == 0 { s0.assigned() + 1 } else { s0.assigned() }
                                    &&& s1.live() == s0.live().insert(target)
                                    &&& s1.unique_entries_view() == without_id(s0.unique_entries_view(), target)
                                        + unique_tagged(u, target)
                                    &&& s1.index_entries_view() == without_id(s0.index_entries_view(), target)
                                        + index_tagged(x, target)
                                    &&& s1.same_properties(&s0)
                                    &&& same_schema(s1, s0)
                                    &&& same_counters(s1, s0)
                                    &&& same_lists(s1, s0)
                                    &&& same_members(s1, s0)
                                },
                            }
                        },
                    },
                }
            }),
    {
        let (u, x) = match uniques_indices(&enc.attributes, &self.unique_fields, &self.index_fields) {
            Ok(p) => p,
            Err(e) => return Err(e),
        };
        let n = self.records.len();
        if enc.id > n || (enc.id == 0 && n == usize::MAX) {
            return Err(OhmerError::NotSaved);
        }
        let target = if enc.id == 0 { n + 1 } else { enc.id };
        match find_conflict(&self.uniques, &u, target) {
            Some(i) => return Err(OhmerError::UniqueIndexViolation(u[i].0.clone())),
            None => {},
        }
        let ghost s0 = *self;
        let record = attribute_pairs(&enc.attributes);
        if enc.id == 0 {
            self.records.push(Some(record));
        } else {
            self.records.set(target - 1, Some(record));
        }
        let mut uniques = remove_id(&self.uniques, target);
        append_uniques(&mut uniques, &u, target);
        self.uniques = uniques;
        proof {
            lemma_save_keeps_uniques_consistent(entries_view(s0.uniques@), pairs_view(u@), target);
        }
        let mut indices = remove_id(&self.indices, target);
        append_indices(&mut indices, &x, target);
        self.indices = indices;
        assert forall|id: nat| id != target implies #[trigger] self.record(id) == s0.record(id) by {
            if 1 <= id <= s0.records@.len() {
                assert(self.records@[id - 1] == s0.records@[id - 1]);
            }
        }
        assert(self.live() =~= s0.live().insert(target)) by {
            assert forall|id: usize| self.live().contains(id) <==> s0.live().contains(id) || id == target by {
                if id != target {
                    assert(self.record(id as nat) == s0.record(id as nat));
                }
            }
        }
        Ok(target)
    }

    /// The atomic delete: the record, its unique entries, and the object's counter, set
    /// and list properties go; its secondary-index memberships stay.
    pub fn delete(&mut self, enc: &Encoder) -> (r: Result<(), OhmerError>)
        requires
            old(self).wf(),
        ensures
            final(self).wf(),
            enc@.id == 0 ==> (r matches Err(OhmerError::NotSaved)) && *final(self) == *old(self),
            enc@.id != 0 ==> {
                let id = enc@.id as usize;
                &&& r is Ok
                &&& final(self).record(id as nat) is None
                &&& forall|j: nat| j != id ==> #[trigger] final(self).record(j) == old(self).record(j)
                &&& final(self).assigned() == old(self).assigned()
                &&& final(self).live() == old(self).live().remove(id)
                &&& final(self).unique_entries_view() == without_id(old(self).unique_entries_view(), id)
                &&& final(self).index_entries_view() == old(self).index_entries_view()
                &&& forall|o: usize, p: Seq<char>| #[trigger] final(self).counter(o, p) == if o == id
                    && enc@.counters.contains(p) {
                    0
                } else {
                    old(self).counter(o, p)
                }
                &&& forall|o: usize, p: Seq<char>| #[trigger] final(self).list(o, p) == if o == id
                    && enc@.lists.contains(p) {
                    Seq::<usize>::empty()
                } else {
                    old(self).list(o, p)
                }
                &&& forall|o: usize, p: Seq<char>| #[trigger] final(self).members(o, p) == if o == id
                    && enc@.sets.contains(p) {
                    Set::<usize>::empty()
                } else {
                    old(self).members(o, p)
                }
                &&& final(self).class_name() == old(self).class_name()
                &&& final(self).unique_schema() == old(self).unique_schema()
                &&& final(self).index_schema() == old(self).index_schema()
            },
    {
        let id = enc.id;
        if id == 0 {
            return Err(OhmerError::NotSaved);
        }
        let ghost s0 = *self;
        if id <= self.records.len() {
            self.records.set(id - 1, None);
        }
        self.uniques = remove_id(&self.uniques, id);
        proof {
            lemma_remove_keeps_uniques_consistent(entries_view(s0.uniques@), id);
        }
        clear_counters(&mut self.counters, id, &enc.counters);
        clear_ids(&mut self.lists, id, &enc.lists);
        clear_ids(&mut self.sets, id, &enc.sets);
        assert forall|j: nat| j != id implies #[trigger] self.record(j) == s0.record(j) by {
            if 1 <= j <= s0.records@.len() {
                assert(self.records@[j - 1] == s0.records@[j - 1]);
            }
        }
        assert(self.live() =~= s0.live().remove(id)) by {
            assert forall|j: usize| self.live().contains(j) <==> s0.live().contains(j) && j != id by {
                if j != id {
                    assert(self.record(j as nat) == s0.record(j as nat));
                }
            }
        }
        assert forall|o: usize, p: Seq<char>| #[trigger] self.members(o, p) == if o == id
            && enc@.sets.contains(p) {
            Set::<usize>::empty()
        } else {
            s0.members(o, p)
        } by {
            if o == id && enc@.sets.contains(p) {
                assert(ids_value(self.sets@, o, p).to_set() =~= Set::<usize>::empty());
            }
        }
        Ok(())
    }

    /// The record of `id` with the id merged in under `id`, as decoding expects it.
    pub fn load(&self, id: usize) -> (r: Option<Vec<(String, String)>>)
        ensures
            match self.record(id as nat) {
                Some(rec) => r matches Some(v) && pairs_view(v@) == seq![("id"@, crate::text::decimal(id as nat))] + rec,
                None => r is None,
            },
    {
        if id == 0 || id > self.records.len() {
            return None;
        }
        match &self.records[id - 1] {
            Some(rec) => {
                let mut v: Vec<(String, String)> = Vec::new();
                v.push((String::from_str("id"), usize_text(id)));
                let mut i: usize = 0;
                while i < rec.len()
                    invariant
                        i <= rec@.len(),
                        pairs_view(v@) == seq![("id"@, crate::text::decimal(id as nat))] + pairs_view(rec@).take(i as int),
                    decreases rec.len() - i,
                {
                    let ghost before = v@;
                    v.push((rec[i].0.clone(), rec[i].1.clone()));
                    assert(pairs_view(v@) =~= pairs_view(before).push(pairs_view(rec@)[i as int]));
                    assert(pairs_view(rec@).take(i + 1) =~= pairs_view(rec@).take(i as int).push(pairs_view(rec@)[i as int]));
                    i = i + 1;
                }
                assert(pairs_view(rec@).take(i as int) =~= pairs_view(rec@));
                Some(v)
            },
            None => None,
        }
    }

    /// The id that the unique index of `field` holds for `value`.
    pub fn with(&self, field: &str, value: &str) -> (r: Option<usize>)
        ensures
            match r {
                Some(id) => self.unique_entries_view().contains((field@, value@, id)),
                None => forall|id: usize| !self.unique_entries_view().contains((field@, value@, id)),
            },
    {
        let ghost ev = entries_view(self.uniques@);
        let mut i: usize = 0;
        while i < self.uniques.len()
            invariant
                ev == entries_view(self.uniques@),
                i <= ev.len(),
                forall|j: int| 0 <= j < i ==> !(ev[j].0 == field@ && ev[j].1 == value@),
            decreases self.uniques.len() - i,
        {
            let e = &self.uniques[i];
            if same_text(e.key.as_str(), field) && same_text(e.value.as_str(), value) {
                assert(ev[i as int] == (field@, value@, e.id));
                return Some(e.id);
            }
            i = i + 1;
        }
        None
    }

    /// The ids that the secondary index of `key` holds for `value`.
    pub fn find(&self, key: &str, value: &str) -> (r: Vec<usize>)
        ensures
            forall|id: usize| r@.contains(id) <==> holders(self.index_entries_view(), key@, value@).contains(id),
    {
        let ghost ev = entries_view(self.indices@);
        let mut r: Vec<usize> = Vec::new();
        let mut i: usize = 0;
        while i < self.indices.len()
            invariant
                ev == entries_view(self.indices@),
                i <= ev.len(),
                forall|id: usize| r@.contains(id) <==> ev.take(i as int).contains((key@, value@, id)),
            decreases self.indices.len() - i,
        {
            let e = &self.indices[i];
            assert(ev[i as int] == (e.key@, e.value@, e.id));
            assert(ev.take(i + 1) =~= ev.take(i as int).push(ev[i as int]));
            let ghost before = r@;
            if same_text(e.key.as_str(), key) && same_text(e.value.as_str(), value) {
                r.push(e.id);
                assert forall|id: usize| r@.contains(id) <==> ev.take(i + 1).contains((key@, value@, id)) by {
                    lemma_push_contains(before, e.id, id);
                    lemma_take_contains(ev, i as int, (key@, value@, id));
                }
            } else {
                assert forall|id: usize| r@.contains(id) <==> ev.take(i + 1).contains((key@, value@, id)) by {
                    lemma_take_contains(ev, i as int, (key@, value@, id));
                }
            }
            i = i + 1;
        }
        assert(ev.take(i as int) =~= ev);
        r
    }

    /// The ids of the existing objects, ascending.
    pub fn all(&self) -> (r: Vec<usize>)
        ensures
            r@.no_duplicates(),
            forall|id: usize| r@.contains(id) <==> self.live().contains(id),
    {
        let mut r: Vec<usize> = Vec::new();
        let mut i: usize = 0;
        while i < self.records.len()
            invariant
                i <= self.records@.len(),
                r@.no_duplicates(),
                forall|k: int| 0 <= k < r@.len() ==> r@[k] <= i,
                forall|id: usize| r@.contains(id) <==> (1 <= id <= i && self.record(id as nat) is Some),
            decreases self.records.len() - i,
        {
            let ghost before = r@;
            if self.records[i].is_some() {
                r.push(i + 1);
                assert(self.record((i + 1) as nat) is Some);
                assert forall|id: usize| r@.contains(id) <==> (1 <= id <= i + 1 && self.record(id as nat) is Some) by {
                    lemma_push_contains(before, (i + 1) as usize, id);
                }
                assert forall|k: int| 0 <= k < r@.len() implies r@[k] <= i + 1 by {
                    if k < before.len() {
                        assert(r@[k] == before[k]);
                    }
                }
                assert(r@.no_duplicates()) by {
                    assert forall|a: int, b: int| 0 <= a < b < r@.len() implies r@[a] != r@[b] by {
                        if b == r@.len() - 1 {
                            assert(r@[a] == before[a]);
                        } else {
                            assert(r@[a] == before[a] && r@[b] == before[b]);
                        }
                    }
                }
            } else {
                assert(self.record((i + 1) as nat) is None);
            }
            i = i + 1;
        }
        r
    }

    /// Adds `by` to the counter `prop` of `id` and returns the new value. An increment
    /// past the range of `i64` is refused as a failed `INCRBY` command, and changes nothing.
    pub fn incr(&mut self, id: usize, prop: &str, by: i64) -> (r: Result<i64, OhmerError>)
        requires
            old(self).wf(),
        ensures
            final(self).wf(),
            id == 0 ==> (r matches Err(OhmerError::NotSaved)) && *final(self) == *old(self),
            id != 0 && (old(self).counter(id, prop@) + by > i64::MAX || old(self).counter(id, prop@) + by < i64::MIN)
                ==> (r matches Err(OhmerError::CommandError(b)) && b@ == crate::query::bytes_of("INCRBY"@)) && *final(self) == *old(self),
            id != 0 && i64::MIN <= old(self).counter(id, prop@) + by <= i64::MAX ==> {
                &&& r == Ok::<i64, OhmerError>((old(self).counter(id, prop@) + by) as i64)
                &&& final(self).counter(id, prop@) == old(self).counter(id, prop@) + by
                &&& forall|o: usize, p: Seq<char>| !(o == id && p == prop@) ==> #[trigger] final(self).counter(o, p) == old(self).counter(o, p)
                &&& final(self).same_but_counters(old(self))
                &&& same_objects(*final(self), *old(self))
                &&& same_lists(*final(self), *old(self))
                &&& same_members(*final(self), *old(self))
            },
    {
        if id == 0 {
            return Err(OhmerError::NotSaved);
        }
        let current = self.get_counter(id, prop);
        let next = match current.checked_add(by) {
            Some(v) => v,
            None => return Err(OhmerError::CommandError(crate::query::word("INCRBY"))),
        };
        put_slot(&mut self.counters, id, prop, next);
        Ok(next)
    }

    /// The counter `prop` of `id`: 0 until it is first incremented.
    pub fn counter_get(&self, id: usize, prop: &str) -> (r: Result<i64, OhmerError>)
        ensures
            id == 0 ==> r matches Err(OhmerError::NotSaved),
            id != 0 ==> r == Ok::<i64, OhmerError>(self.counter(id, prop@)),
    {
        if id == 0 {
            return Err(OhmerError::NotSaved);
        }
        Ok(self.get_counter(id, prop))
    }

    fn get_counter(&self, id: usize, prop: &str) -> (r: i64)
        ensures
            r == self.counter(id, prop@),
    {
        match find_slot(&self.counters, id, prop) {
            Some(i) => self.counters[i].value,
            None => 0,
        }
    }

    fn get_list(&self, id: usize, prop: &str) -> (r: Vec<usize>)
        ensures
            r@ == self.list(id, prop@),
    {
        match find_slot(&self.lists, id, prop) {
            Some(i) => self.lists[i].value.clone(),
            None => Vec::new(),
        }
    }

    fn get_set(&self, id: usize, prop: &str) -> (r: Vec<usize>)
        requires
            self.wf(),
        ensures
            r@ == ids_value(self.sets@, id, prop@),
            r@.no_duplicates(),
    {
        match find_slot(&self.sets, id, prop) {
            Some(i) => self.sets[i].value.clone(),
            None => Vec::new(),
        }
    }

    fn put_set(&mut self, id: usize, prop: &str, items: Vec<usize>)
        requires
            old(self).wf(),
            items@.no_duplicates(),
        ensures
            final(self).wf(),
            set_updated(*final(self), *old(self), id, prop@, items@.to_set()),
    {
        let ghost gi = items;
        put_slot(&mut self.sets, id, prop, items);
        assert forall|o: usize, p: Seq<char>| !(o == id && p == prop@) implies #[trigger] self.members(o, p) == old(self).members(o, p) by {
            assert(slot_value(self.sets@, o, p) == slot_value(old(self).sets@, o, p));
        }
        assert(slot_value(self.sets@, id, prop@) == Some(gi));
        assert forall|o: usize, p: Seq<char>| (#[trigger] slot_value(self.sets@, o, p) matches Some(v) ==> v@.no_duplicates()) by {
            assert(slot_value(self.sets@, o, p) == if o == id && p == prop@ { Some(gi) } else { slot_value(old(self).sets@, o, p) });
        }
    }

    /// Appends `x` to the list and returns its new length.
    pub fn push_back(&mut self, id: usize, prop: &str, x: usize) -> (r: Result<usize, OhmerError>)
        requires
            old(self).wf(),
        ensures
            final(self).wf(),
            id == 0 ==> (r matches Err(OhmerError::NotSaved)) && *final(self) == *old(self),
            id != 0 ==> list_updated(*final(self), *old(self), id, prop@, old(self).list(id, prop@).push(x))
                && r == Ok::<usize, OhmerError>(final(self).list(id, prop@).len() as usize),
    {
        if id == 0 {
            return Err(OhmerError::NotSaved);
        }
        let mut items = self.get_list(id, prop);
        items.push(x);
        let n = items.len();
        self.put_list(id, prop, items);
        Ok(n)
    }

    /// Prepends `x` to the list and returns its new length.
    pub fn push_front(&mut self, id: usize, prop: &str, x: usize) -> (r: Result<usize, OhmerError>)
        requires
            old(self).wf(),
        ensures
            final(self).wf(),
            id == 0 ==> (r matches Err(OhmerError::NotSaved)) && *final(self) == *old(self),
            id != 0 ==> list_updated(*final(self), *old(self), id, prop@, seq![x] + old(self).list(id, prop@))
                && r == Ok::<usize, OhmerError>(final(self).list(id, prop@).len() as usize),
    {
        if id == 0 {
            return Err(OhmerError::NotSaved);
        }
        let mut items = self.get_list(id, prop);
        items.insert(0, x);
        assert(items@ =~= seq![x] + old(self).list(id, prop@));
        let n = items.len();
        self.put_list(id, prop, items);
        Ok(n)
    }

    /// Removes and returns the last item of the list.
    pub fn pop_back(&mut self, id: usize, prop: &str) -> (r: Result<Option<usize>, OhmerError>)
        requires
            old(self).wf(),
        ensures
            final(self).wf(),
            id == 0 ==> (r matches Err(OhmerError::NotSaved)) && *final(self) == *old(self),
            id != 0 && old(self).list(id, prop@).len() == 0 ==> r == Ok::<Option<usize>, OhmerError>(None) && *final(self) == *old(self),
            id != 0 && old(self).list(id, prop@).len() > 0 ==> r == Ok::<Option<usize>, OhmerError>(Some(old(self).list(id, prop@).last()))
                && list_updated(*final(self), *old(self), id, prop@, old(self).list(id, prop@).drop_last()),
    {
        if id == 0 {
            return Err(OhmerError::NotSaved);
        }
        let mut items = self.get_list(id, prop);
        match items.pop() {
            Some(x) => {
                assert(items@ =~= old(self).list(id, prop@).drop_last());
                self.put_list(id, prop, items);
                Ok(Some(x))
            },
            None => Ok(None),
        }
    }

    /// Removes and returns the first item of the list.
    pub fn pop_front(&mut self, id: usize, prop: &str) -> (r: Result<Option<usize>, OhmerError>)
        requires
            old(self).wf(),
        ensures
            final(self).wf(),
            id == 0 ==> (r matches Err(OhmerError::NotSaved)) && *final(self) == *old(self),
            id != 0 && old(self).list(id, prop@).len() == 0 ==> r == Ok::<Option<usize>, OhmerError>(None) && *final(self) == *old(self),
            id != 0 && old(self).list(id, prop@).len() > 0 ==> r == Ok::<Option<usize>, OhmerError>(Some(old(self).list(id, prop@)[0]))
                && list_updated(*final(self), *old(self), id, prop@, old(self).list(id, prop@).skip(1)),
    {
        if id == 0 {
            return Err(OhmerError::NotSaved);
        }
        let mut items = self.get_list(id, prop);
        if items.len() == 0 {
            return Ok(None);
        }
        let x = items.remove(0);
        assert(items@ =~= old(self).list(id, prop@).skip(1));
        self.put_list(id, prop, items);
        Ok(Some(x))
    }

    /// The items of the list, in order.
    pub fn list_items(&self, id: usize, prop: &str) -> (r: Result<Vec<usize>, OhmerError>)
        ensures
            id == 0 ==> r matches Err(OhmerError::NotSaved),
            id != 0 ==> (r matches Ok(v) && v@ == self.list(id, prop@)),
    {
        if id == 0 {
            return Err(OhmerError::NotSaved);
        }
        Ok(self.get_list(id, prop))
    }

    /// The first item of the list.
    pub fn list_first(&self, id: usize, prop: &str) -> (r: Result<Option<usize>, OhmerError>)
        ensures
            id == 0 ==> r matches Err(OhmerError::NotSaved),
            id != 0 ==> r == Ok::<Option<usize>, OhmerError>(if self.list(id, prop@).len() == 0 {
                None
            } else {
                Some(self.list(id, prop@)[0])
            }),
    {
        if id == 0 {
            return Err(OhmerError::NotSaved);
        }
        let items = self.get_list(id, prop);
        if items.len() == 0 {
            Ok(None)
        } else {
            Ok(Some(items[0]))
        }
    }

    /// The last item of the list.
    pub fn list_last(&self, id: usize, prop: &str) -> (r: Result<Option<usize>, OhmerError>)
        ensures
            id == 0 ==> r matches Err(OhmerError::NotSaved),
            id != 0 ==> r == Ok::<Option<usize>, OhmerError>(if self.list(id, prop@).len() == 0 {
                None
            } else {
                Some(self.list(id, prop@).last())
            }),
    {
        if id == 0 {
            return Err(OhmerError::NotSaved);
        }
        let items = self.get_list(id, prop);
        if items.len() == 0 {
            Ok(None)
        } else {
            Ok(Some(items[items.len() - 1]))
        }
    }

    /// The items in positions `start ..= end`; a negative bound counts from the end.
    pub fn list_range(&self, id: usize, prop: &str, start: isize, end: isize) -> (r: Result<Vec<usize>, OhmerError>)
        ensures
            id == 0 ==> r matches Err(OhmerError::NotSaved),
            id != 0 && self.list(id, prop@).len() <= isize::MAX ==> (r matches Ok(v) && v@ == list_range_of(self.list(id, prop@), start as int, end as int)),
    {
        if id == 0 {
            return Err(OhmerError::NotSaved);
        }
        let items = self.get_list(id, prop);
        let len = items.len();
        if len > isize::MAX as usize {
            return Ok(Vec::new());
        }
        let n = len as isize;
        let first: isize = if start < 0 {
            if n + start < 0 { 0 } else { n + start }
        } else {
            start
        };
        let last: isize = if end < 0 {
            n + end
        } else if end < n {
            end
        } else {
            n - 1
        };
        let mut out: Vec<usize> = Vec::new();
        if first > last || first >= n {
            assert(list_range_of(items@, start as int, end as int) =~= Seq::<usize>::empty());
            return Ok(out);
        }
        let mut i: usize = first as usize;
        let stop: usize = last as usize;
        while i <= stop
            invariant
                0 <= first <= last < n,
                n == items@.len(),
                first as usize <= i <= stop + 1,
                stop == last as usize,
                out@ == items@.subrange(first as int, i as int),
            decreases stop + 1 - i,
        {
            out.push(items[i]);
            assert(out@ =~= items@.subrange(first as int, i + 1));
            i = i + 1;
        }
        assert(out@ == list_range_of(items@, start as int, end as int));
        Ok(out)
    }

    /// Whether `x` is in the list.
    pub fn list_contains(&self, id: usize, prop: &str, x: usize) -> (r: Result<bool, OhmerError>)
        ensures
            id == 0 ==> r matches Err(OhmerError::NotSaved),
            id != 0 ==> r == Ok::<bool, OhmerError>(self.list(id, prop@).contains(x)),
    {
        if id == 0 {
            return Err(OhmerError::NotSaved);
        }
        let items = self.get_list(id, prop);
        Ok(contains_id(&items, x))
    }

    /// The number of items in the list.
    pub fn list_len(&self, id: usize, prop: &str) -> (r: Result<usize, OhmerError>)
        ensures
            id == 0 ==> r matches Err(OhmerError::NotSaved),
            id != 0 ==> r == Ok::<usize, OhmerError>(self.list(id, prop@).len() as usize),
    {
        if id == 0 {
            return Err(OhmerError::NotSaved);
        }
        Ok(self.get_list(id, prop).len())
    }

    /// Removes every occurrence of `x` from the list and returns how many there were.
    pub fn list_remove(&mut self, id: usize, prop: &str, x: usize) -> (r: Result<usize, OhmerError>)
        requires
            old(self).wf(),
        ensures
            final(self).wf(),
            id == 0 ==> (r matches Err(OhmerError::NotSaved)) && *final(self) == *old(self),
            id != 0 ==> list_updated(*final(self), *old(self), id, prop@, remove_all(old(self).list(id, prop@), x))
                && r == Ok::<usize, OhmerError>((old(self).list(id, prop@).len() - remove_all(old(self).list(id, prop@), x).len()) as usize),
    {
        if id == 0 {
            return Err(OhmerError::NotSaved);
        }
        let items = self.get_list(id, prop);
        let ghost l = items@;
        let mut kept: Vec<usize> = Vec::new();
        let mut i: usize = 0;
        assert(l.take(0) =~= Seq::<usize>::empty());
        while i < items.len()
            invariant
                l == items@,
                i <= l.len(),
                kept@ == remove_all(l.take(i as int), x),
                kept@.len() <= i,
            decreases items.len() - i,
        {
            assert(l.take(i + 1).drop_last() =~= l.take(i as int));
            assert(l.take(i + 1).last() == l[i as int]);
            if items[i] != x {
                kept.push(items[i]);
            }
            i = i + 1;
        }
        assert(l.take(i as int) =~= l);
        let removed = items.len() - kept.len();
        self.put_list(id, prop, kept);
        Ok(removed)
    }

    /// Adds `x` to the set; `false` when it was already a member.
    pub fn set_insert(&mut self, id: usize, prop: &str, x: usize) -> (r: Result<bool, OhmerError>)
        requires
            old(self).wf(),
        ensures
            final(self).wf(),
            id == 0 ==> (r matches Err(OhmerError::NotSaved)) && *final(self) == *old(self),
            id != 0 ==> r == Ok::<bool, OhmerError>(!old(self).members(id, prop@).contains(x))
                && set_updated(*final(self), *old(self), id, prop@, old(self).members(id, prop@).insert(x)),
    {
        if id == 0 {
            return Err(OhmerError::NotSaved);
        }
        let mut items = self.get_set(id, prop);
        let ghost before = items@;
        if contains_id(&items, x) {
            assert(before.to_set().insert(x) =~= before.to_set());
            self.put_set(id, prop, items);
            return Ok(false);
        }
        items.push(x);
        assert forall|y: usize| items@.to_set().contains(y) <==> before.to_set().insert(x).contains(y) by {
            lemma_push_contains(before, x, y);
        }
        assert(items@.to_set() =~= before.to_set().insert(x));
        assert(items@.no_duplicates()) by {
            assert forall|a: int, b: int| 0 <= a < b < items@.len() implies items@[a] != items@[b] by {
                if b == items@.len() - 1 {
                    assert(before.contains(items@[a]));
                }
            }
        }
        self.put_set(id, prop, items);
        Ok(true)
    }

    /// Takes `x` out of the set; `false` when it was not a member.
    pub fn set_remove(&mut self, id: usize, prop: &str, x: usize) -> (r: Result<bool, OhmerError>)
        requires
            old(self).wf(),
        ensures
            final(self).wf(),
            id == 0 ==> (r matches Err(OhmerError::NotSaved)) && *final(self) == *old(self),
            id != 0 ==> r == Ok::<bool, OhmerError>(old(self).members(id, prop@).contains(x))
                && set_updated(*final(self), *old(self), id, prop@, old(self).members(id, prop@).remove(x)),
    {
        if id == 0 {
            return Err(OhmerError::NotSaved);
        }
        let items = self.get_set(id, prop);
        let ghost l = items@;
        let mut kept: Vec<usize> = Vec::new();
        let mut i: usize = 0;
        let mut found = false;
        while i < items.len()
            invariant
                l == items@,
                l.no_duplicates(),
                i <= l.len(),
                kept@.no_duplicates(),
                forall|y: usize| kept@.contains(y) <==> (l.take(i as int).contains(y) && y != x),
                found == l.take(i as int).contains(x),
            decreases items.len() - i,
        {
            let ghost before = kept@;
            proof {
                lemma_take_contains(l, i as int, x);
            }
            if items[i] != x {
                kept.push(items[i]);
                assert forall|y: usize| kept@.contains(y) <==> (l.take(i + 1).contains(y) && y != x) by {
                    lemma_push_contains(before, l[i as int], y);
                    lemma_take_contains(l, i as int, y);
                }
                assert(kept@.no_duplicates()) by {
                    assert forall|a: int, b: int| 0 <= a < b < kept@.len() implies kept@[a] != kept@[b] by {
                        if b == kept@.len() - 1 {
                            assert(before.contains(kept@[a]));
                            assert(l.take(i as int).contains(kept@[a]));
                            let k = choose|k: int| 0 <= k < i && #[trigger] l.take(i as int)[k] == kept@[a];
                            assert(l.take(i as int)[k] == l[k]);
                            assert(l[k] != l[i as int]);
                            assert(kept@[b] == l[i as int]);
                        }
                    }
                }
            } else {
                found = true;
                assert forall|y: usize| kept@.contains(y) <==> (l.take(i + 1).contains(y) && y != x) by {
                    lemma_take_contains(l, i as int, y);
                }
            }
            i = i + 1;
        }
        assert(l.take(i as int) =~= l);
        assert forall|y: usize| kept@.to_set().contains(y) <==> l.to_set().remove(x).contains(y) by {}
        assert(kept@.to_set() =~= l.to_set().remove(x));
        self.put_set(id, prop, kept);
        Ok(found)
    }

    /// Whether `x` is a member of the set.
    pub fn set_contains(&self, id: usize, prop: &str, x: usize) -> (r: Result<bool, OhmerError>)
        requires
            self.wf(),
        ensures
            id == 0 ==> r matches Err(OhmerError::NotSaved),
            id != 0 ==> r == Ok::<bool, OhmerError>(self.members(id, prop@).contains(x)),
    {
        if id == 0 {
            return Err(OhmerError::NotSaved);
        }
        let items = self.get_set(id, prop);
        Ok(contains_id(&items, x))
    }

    /// The number of members of the set.
    pub fn set_len(&self, id: usize, prop: &str) -> (r: Result<usize, OhmerError>)
        requires
            self.wf(),
        ensures
            id == 0 ==> r matches Err(OhmerError::NotSaved),
            id != 0 ==> r == Ok::<usize, OhmerError>(self.members(id, prop@).len() as usize),
    {
        if id == 0 {
            return Err(OhmerError::NotSaved);
        }
        let items = self.get_set(id, prop);
        proof {
            items@.unique_seq_to_set();
        }
        Ok(items.len())
    }

    fn put_list(&mut self, id: usize, prop: &str, items: Vec<usize>)
        ensures
            final(self).list(id, prop@) == items@,
            forall|o: usize, p: Seq<char>| !(o == id && p == prop@) ==> #[trigger] final(self).list(o, p) == old(self).list(o, p),
            final(self).same_but_lists(old(self)),
    {
        put_slot(&mut self.lists, id, prop, items);
        assert forall|o: usize, p: Seq<char>| !(o == id && p == prop@) implies #[trigger] self.list(o, p) == old(self).list(o, p) by {
            assert(slot_value(self.lists@, o, p) == slot_value(old(self).lists@, o, p));
        }
        assert(slot_value(self.lists@, id, prop@) == Some(items));
    }
}

/// `s1` differs from `s0` only in the list `prop` of `id`, which now holds `items`.
pub open spec fn list_updated(s1: Store, s0: Store, id: usize, prop: Seq<char>, items: Seq<usize>) -> bool {
    &&& s1.list(id, prop) == items
    &&& forall|o: usize, p: Seq<char>| !(o == id && p == prop) ==> #[trigger] s1.list(o, p) == s0.list(o, p)
    &&& s1.same_but_lists(&s0)
    &&& same_objects(s1, s0)
    &&& same_counters(s1, s0)
    &&& same_members(s1, s0)
}

/// `s1` differs from `s0` only in the set `prop` of `id`, which now holds `items`.
pub open spec fn set_updated(s1: Store, s0: Store, id: usize, prop: Seq<char>, items: Set<usize>) -> bool {
    &&& s1.members(id, prop) == items
    &&& forall|o: usize, p: Seq<char>| !(o == id && p == prop) ==> #[trigger] s1.members(o, p) == s0.members(o, p)
    &&& s1.same_but_sets(&s0)
    &&& same_objects(s1, s0)
    &&& same_counters(s1, s0)
    &&& same_lists(s1, s0)
}

/// The positions `first ..= last` that a range `start ..= end` covers in a list of
/// `len` items; a negative bound counts from the end.
pub open spec fn range_bounds(len: int, start: int, end: int) -> (int, int) {
    let first = if start < 0 {
        if len + start < 0 { 0 } else { len + start }
    } else {
        start
    };
    let last = if end < 0 {
        len + end
    } else if end < len {
        end
    } else {
        len - 1
    };
    (first, last)
}

/// The items of `s` in the range `start ..= end`.
pub open spec fn list_range_of(s: Seq<usize>, start: int, end: int) -> Seq<usize> {
    let (first, last) = range_bounds(s.len() as int, start, end);
    if first > last || first >= s.len() {
        Seq::empty()
    } else {
        s.subrange(first, last + 1)
    }
}

/// `s` without any occurrence of `x`.
pub open spec fn remove_all(s: Seq<usize>, x: usize) -> Seq<usize>
    decreases s.len(),
{
    if s.len() == 0 {
        s
    } else if s.last() == x {
        remove_all(s.drop_last(), x)
    } else {
        remove_all(s.drop_last(), x).push(s.last())
    }
}

/// Sets the listed counters of `id` back to 0.
fn clear_counters(slots: &mut Vec<Slot<i64>>, id: usize, names: &Vec<String>)
    ensures
        forall|o: usize, p: Seq<char>| #[trigger] counter_value(final(slots)@, o, p) == if o == id && texts(names@).contains(p) {
            0
        } else {
            counter_value(old(slots)@, o, p)
        },
{
    let ghost start = slots@;
    let mut i: usize = 0;
    while i < names.len()
        invariant
            i <= names@.len(),
            forall|o: usize, p: Seq<char>| #[trigger] counter_value(slots@, o, p) == if o == id && texts(names@).take(i as int).contains(p) {
                0
            } else {
                counter_value(start, o, p)
            },
        decreases names.len() - i,
    {
        let ghost before = slots@;
        put_slot(slots, id, names[i].as_str(), 0);
        assert forall|o: usize, p: Seq<char>| #[trigger] counter_value(slots@, o, p) == if o == id && texts(names@).take(i + 1).contains(p) {
            0
        } else {
            counter_value(start, o, p)
        } by {
            lemma_take_contains(texts(names@), i as int, p);
            assert(texts(names@)[i as int] == names@[i as int]@);
            assert(slot_value(slots@, o, p) == if o == id && p == names@[i as int]@ { Some(0i64) } else { slot_value(before, o, p) });
            assert(counter_value(before, o, p) == if o == id && texts(names@).take(i as int).contains(p) {
                0
            } else {
                counter_value(start, o, p)
            });
        }
        i = i + 1;
    }
    assert(texts(names@).take(i as int) =~= texts(names@));
}

/// Empties the listed list or set properties of `id`.
fn clear_ids(slots: &mut Vec<Slot<Vec<usize>>>, id: usize, names: &Vec<String>)
    ensures
        (forall|o: usize, p: Seq<char>| #[trigger] slot_value(old(slots)@, o, p) matches Some(v) ==> v@.no_duplicates())
            ==> (forall|o: usize, p: Seq<char>| #[trigger] slot_value(final(slots)@, o, p) matches Some(v) ==> v@.no_duplicates()),
        forall|o: usize, p: Seq<char>| #[trigger] ids_value(final(slots)@, o, p) == if o == id && texts(names@).contains(p) {
            Seq::<usize>::empty()
        } else {
            ids_value(old(slots)@, o, p)
        },
{
    let ghost start = slots@;
    let mut i: usize = 0;
    while i < names.len()
        invariant
            i <= names@.len(),
            (forall|o: usize, p: Seq<char>| #[trigger] slot_value(start, o, p) matches Some(v) ==> v@.no_duplicates())
                ==> (forall|o: usize, p: Seq<char>| #[trigger] slot_value(slots@, o, p) matches Some(v) ==> v@.no_duplicates()),
            forall|o: usize, p: Seq<char>| #[trigger] ids_value(slots@, o, p) == if o == id && texts(names@).take(i as int).contains(p) {
                Seq::<usize>::empty()
            } else {
                ids_value(start, o, p)
            },
        decreases names.len() - i,
    {
        let ghost before = slots@;
        let empty: Vec<usize> = Vec::new();
        let ghost ge = empty;
        put_slot(slots, id, names[i].as_str(), empty);
        assert((forall|o: usize, p: Seq<char>| #[trigger] slot_value(start, o, p) matches Some(v) ==> v@.no_duplicates())
            ==> (forall|o: usize, p: Seq<char>| #[trigger] slot_value(slots@, o, p) matches Some(v) ==> v@.no_duplicates())) by {
            assert(ge@ =~= Seq::<usize>::empty());
            assert forall|o: usize, p: Seq<char>| #[trigger] slot_value(slots@, o, p) == if o == id && p == names@[i as int]@ { Some(ge) } else { slot_value(before, o, p) } by {}
        }
        assert forall|o: usize, p: Seq<char>| #[trigger] ids_value(slots@, o, p) == if o == id && texts(names@).take(i + 1).contains(p) {
            Seq::<usize>::empty()
        } else {
            ids_value(start, o, p)
        } by {
            lemma_take_contains(texts(names@), i as int, p);
            assert(texts(names@)[i as int] == names@[i as int]@);
            assert(slot_value(slots@, o, p) == if o == id && p == names@[i as int]@ { Some(ge) } else { slot_value(before, o, p) });
            assert(ids_value(before, o, p) == if o == id && texts(names@).take(i as int).contains(p) {
                Seq::<usize>::empty()
            } else {
                ids_value(start, o, p)
            });
        }
        i = i + 1;
    }
    assert(texts(names@).take(i as int) =~= texts(names@));
}

fn contains_id(v: &Vec<usize>, x: usize) -> (r: bool)
    ensures
        r == v@.contains(x),
{
    let mut i: usize = 0;
    while i < v.len()
        invariant
            i <= v@.len(),
            forall|j: int| 0 <= j < i ==> v@[j] != x,
        decreases v.len() - i,
    {
        if v[i] == x {
            return true;
        }
        i = i + 1;
    }
    false
}

proof fn lemma_push_contains<A>(s: Seq<A>, x: A, y: A)
    ensures
        s.push(x).contains(y) <==> s.contains(y) || x == y,
{
    if s.push(x).contains(y) && x != y {
        let k = choose|k: int| 0 <= k < s.push(x).len() && #[trigger] s.push(x)[k] == y;
        assert(s[k] == y);
    }
    if s.contains(y) {
        let k = choose|k: int| 0 <= k < s.len() && #[trigger] s[k] == y;
        assert(s.push(x)[k] == y);
    }
    if x == y {
        assert(s.push(x)[s.len() as int] == y);
    }
}

proof fn lemma_take_contains<A>(s: Seq<A>, i: int, y: A)
    requires
        0 <= i < s.len(),
    ensures
        s.take(i + 1).contains(y) <==> s.take(i).contains(y) || s[i] == y,
{
    assert(s.take(i + 1) =~= s.take(i).push(s[i]));
    lemma_push_contains(s.take(i), s[i], y);
}

fn clone_entry(e: &Entry) -> (r: Entry)
    ensures
        r.key@ == e.key@,
        r.value@ == e.value@,
        r.id == e.id,
{
    Entry { key: e.key.clone(), value: e.value.clone(), id: e.id }
}

/// The entries that do not point at `id`.
fn remove_id(v: &Vec<Entry>, id: usize) -> (r: Vec<Entry>)
    ensures
        entries_view(r@) == without_id(entries_view(v@), id),
{
    let ghost es = entries_view(v@);
    let mut r: Vec<Entry> = Vec::new();
    let mut i: usize = 0;
    assert(es.take(0) =~= Seq::empty());
    assert(entries_view(r@) =~= without_id(es.take(0), id));
    while i < v.len()
        invariant
            es == entries_view(v@),
            i <= v@.len(),
            entries_view(r@) == without_id(es.take(i as int), id),
        decreases v.len() - i,
    {
        assert(es.take(i + 1).drop_last() =~= es.take(i as int));
        assert(es.take(i + 1).last() == es[i as int]);
        if v[i].id != id {
            let ghost before = r@;
            r.push(clone_entry(&v[i]));
            assert(entries_view(r@) =~= entries_view(before).push(es[i as int]));
        }
        i = i + 1;
    }
    assert(es.take(i as int) =~= es);
    r
}

/// Appends the unique entries of an object, pointing at `id`.
fn append_uniques(v: &mut Vec<Entry>, u: &Vec<(String, String)>, id: usize)
    ensures
        entries_view(final(v)@) == entries_view(old(v)@) + unique_tagged(pairs_view(u@), id),
{
    let ghost start = entries_view(v@);
    let ghost uv = pairs_view(u@);
    let mut i: usize = 0;
    assert(unique_tagged(uv, id).take(0) =~= Seq::empty());
    assert(entries_view(v@) =~= start + unique_tagged(uv, id).take(0));
    while i < u.len()
        invariant
            uv == pairs_view(u@),
            i <= u@.len(),
            entries_view(v@) == start + unique_tagged(uv, id).take(i as int),
        decreases u.len() - i,
    {
        let ghost before = v@;
        v.push(Entry { key: u[i].0.clone(), value: u[i].1.clone(), id });
        assert(entries_view(v@) =~= entries_view(before).push((uv[i as int].0, uv[i as int].1, id)));
        assert(unique_tagged(uv, id).take(i + 1) =~= unique_tagged(uv, id).take(i as int).push(
            (uv[i as int].0, uv[i as int].1, id),
        ));
        i = i + 1;
    }
    assert(unique_tagged(uv, id).take(i as int) =~= unique_tagged(uv, id));
}

/// Appends the index entries of an object, one per value, pointing at `id`.
fn append_indices(v: &mut Vec<Entry>, x: &Vec<(String, Vec<String>)>, id: usize)
    ensures
        entries_view(final(v)@) == entries_view(old(v)@) + index_tagged(index_view(x@), id),
{
    let ghost start = entries_view(v@);
    let ghost xv = index_view(x@);
    let mut i: usize = 0;
    assert(xv.take(0) =~= Seq::empty());
    assert(entries_view(v@) =~= start + index_tagged(xv.take(0), id));
    while i < x.len()
        invariant
            xv == index_view(x@),
            i <= x@.len(),
            entries_view(v@) == start + index_tagged(xv.take(i as int), id),
        decreases x.len() - i,
    {
        let values = &x[i].1;
        let ghost mid = entries_view(v@);
        let ghost tail = xv[i as int].1.map_values(|w: Seq<char>| (xv[i as int].0, w, id));
        let mut k: usize = 0;
        assert(entries_view(v@) =~= mid + tail.take(0));
        while k < values.len()
            invariant
                xv == index_view(x@),
                i < x@.len(),
                values == &x@[i as int].1,
                tail == xv[i as int].1.map_values(|w: Seq<char>| (xv[i as int].0, w, id)),
                k <= values@.len(),
                entries_view(v@) == mid + tail.take(k as int),
            decreases values.len() - k,
        {
            let ghost before = v@;
            v.push(Entry { key: x[i].0.clone(), value: values[k].clone(), id });
            assert(entries_view(v@) =~= entries_view(before).push(tail[k as int]));
            assert(tail.take(k + 1) =~= tail.take(k as int).push(tail[k as int]));
            k = k + 1;
        }
        assert(tail.take(k as int) =~= tail);
        assert(xv.take(i + 1).drop_last() =~= xv.take(i as int));
        assert(xv.take(i + 1).last() == xv[i as int]);
        i = i + 1;
    }
    assert(xv.take(i as int) =~= xv);
}

/// Whether an entry other than one pointing at `id` holds `(key, value)`.
fn held_by_other(es: &Vec<Entry>, key: &str, value: &str, id: usize) -> (r: bool)
    ensures
        r == exists|i: int|
            0 <= i < es@.len() && entries_view(es@)[i].0 == key@ && entries_view(es@)[i].1 == value@
                && entries_view(es@)[i].2 != id,
{
    let mut i: usize = 0;
    while i < es.len()
        invariant
            i <= es@.len(),
            forall|j: int|
                0 <= j < i ==> !(entries_view(es@)[j].0 == key@ && entries_view(es@)[j].1 == value@
                    && entries_view(es@)[j].2 != id),
        decreases es.len() - i,
    {
        if es[i].id != id && same_text(es[i].key.as_str(), key) && same_text(es[i].value.as_str(), value) {
            assert(entries_view(es@)[i as int] == (es@[i as int].key@, es@[i as int].value@, es@[i as int].id));
            return true;
        }
        i = i + 1;
    }
    false
}

/// The position of the first unique entry of the object that another id holds.
fn find_conflict(es: &Vec<Entry>, u: &Vec<(String, String)>, id: usize) -> (r: Option<usize>)
    ensures
        match r {
            Some(i) => i < u@.len() && conflict(entries_view(es@), pairs_view(u@), id) == Some(
                pairs_view(u@)[i as int].0,
            ),
            None => conflict(entries_view(es@), pairs_view(u@), id) is None,
        },
{
    let ghost ev = entries_view(es@);
    let ghost uv = pairs_view(u@);
    let mut i: usize = 0;
    assert(uv.skip(0) =~= uv);
    while i < u.len()
        invariant
            ev == entries_view(es@),
            uv == pairs_view(u@),
            i <= uv.len(),
            conflict(ev, uv, id) == conflict(ev, uv.skip(i as int), id),
        decreases u.len() - i,
    {
        assert(uv.skip(i as int)[0] == uv[i as int]);
        assert(uv.skip(i as int).skip(1) =~= uv.skip(i + 1));
        if held_by_other(es, u[i].0.as_str(), u[i].1.as_str(), id) {
            return Some(i);
        }
        i = i + 1;
    }
    None
}

proof fn lemma_concat_contains<A>(a: Seq<A>, b: Seq<A>, y: A)
    ensures
        (a + b).contains(y) <==> a.contains(y) || b.contains(y),
{
    if (a + b).contains(y) {
        let k = choose|k: int| 0 <= k < (a + b).len() && #[trigger] (a + b)[k] == y;
        if k < a.len() {
            assert(a[k] == y);
        } else {
            assert(b[k - a.len()] == y);
        }
    }
    if a.contains(y) {
        let k = choose|k: int| 0 <= k < a.len() && #[trigger] a[k] == y;
        assert((a + b)[k] == y);
    }
    if b.contains(y) {
        let k = choose|k: int| 0 <= k < b.len() && #[trigger] b[k] == y;
        assert((a + b)[k + a.len()] == y);
    }
}

proof fn lemma_without_id_contains(es: Seq<(Seq<char>, Seq<char>, usize)>, t: usize, e: (Seq<char>, Seq<char>, usize))
    ensures
        without_id(es, t).contains(e) <==> es.contains(e) && e.2 != t,
    decreases es.len(),
{
    if es.len() > 0 {
        lemma_without_id_contains(es.drop_last(), t, e);
        lemma_push_contains(es.drop_last(), es.last(), e);
        assert(es.drop_last().push(es.last()) =~= es);
        if es.last().2 != t {
            lemma_push_contains(without_id(es.drop_last(), t), es.last(), e);
        }
    }
}

proof fn lemma_index_tagged_contains(x: Seq<(Seq<char>, Seq<Seq<char>>)>, t: usize, e: (Seq<char>, Seq<char>, usize))
    ensures
        index_tagged(x, t).contains(e) <==> e.2 == t && exists|i: int| 0 <= i < x.len() && x[i].0 == e.0 && #[trigger] x[i].1.contains(e.1),
    decreases x.len(),
{
    if x.len() > 0 {
        let init = x.drop_last();
        let last = x.last();
        let tail = last.1.map_values(|w: Seq<char>| (last.0, w, t));
        lemma_index_tagged_contains(init, t, e);
        lemma_concat_contains(index_tagged(init, t), tail, e);
        if tail.contains(e) {
            let k = choose|k: int| 0 <= k < tail.len() && #[trigger] tail[k] == e;
            assert(last.1[k] == e.1);
            assert(x[x.len() - 1].1.contains(e.1));
        }
        if e.2 == t && exists|i: int| 0 <= i < x.len() && x[i].0 == e.0 && #[trigger] x[i].1.contains(e.1) {
            let i = choose|i: int| 0 <= i < x.len() && x[i].0 == e.0 && #[trigger] x[i].1.contains(e.1);
            if i == x.len() - 1 {
                let k = choose|k: int| 0 <= k < last.1.len() && #[trigger] last.1[k] == e.1;
                assert(tail[k] == e);
            } else {
                assert(init[i] == x[i]);
            }
        }
        if index_tagged(init, t).contains(e) {
            let i = choose|i: int| 0 <= i < init.len() && init[i].0 == e.0 && #[trigger] init[i].1.contains(e.1);
            assert(x[i] == init[i]);
        }
    }
}

/// Index correctness: once an object is saved under `id`, the secondary index of
/// `(key, value)` holds `id` exactly when `(key, value)` is among the object's index
/// entries, and holds every other id exactly as before.
pub proof fn lemma_index_after_save(
    before: Seq<(Seq<char>, Seq<char>, usize)>,
    x: Seq<(Seq<char>, Seq<Seq<char>>)>,
    id: usize,
    key: Seq<char>,
    value: Seq<char>,
    other: usize,
)
    ensures
        holders(without_id(before, id) + index_tagged(x, id), key, value).contains(other) <==> if other == id {
            exists|i: int| 0 <= i < x.len() && x[i].0 == key && #[trigger] x[i].1.contains(value)
        } else {
            holders(before, key, value).contains(other)
        },
{
    let e = (key, value, other);
    assert(holders(without_id(before, id) + index_tagged(x, id), key, value).contains(other)
        == (without_id(before, id) + index_tagged(x, id)).contains(e));
    assert(holders(before, key, value).contains(other) == before.contains(e));
    lemma_concat_contains(without_id(before, id), index_tagged(x, id), e);
    lemma_without_id_contains(before, id, e);
    lemma_index_tagged_contains(x, id, e);
    assert(e.0 == key && e.1 == value && e.2 == other);
    if other == id {
        assert(!without_id(before, id).contains(e));
        assert(index_tagged(x, id).contains(e) <==> exists|i: int| 0 <= i < x.len() && x[i].0 == key && #[trigger] x[i].1.contains(value));
    } else {
        assert(!index_tagged(x, id).contains(e));
    }
}

/// Uniqueness: when another object already holds one of the unique values being
/// saved, the save finds that conflict, so it fails and changes nothing.
pub proof fn lemma_unique_conflict(
    es: Seq<(Seq<char>, Seq<char>, usize)>,
    u: Seq<(Seq<char>, Seq<char>)>,
    id: usize,
    i: int,
    j: int,
)
    requires
        0 <= i < u.len(),
        0 <= j < es.len(),
        es[j].0 == u[i].0 && es[j].1 == u[i].1,
        es[j].2 != id,
    ensures
        conflict(es, u, id) is Some,
    decreases i,
{
    if i > 0 {
        if !(exists|k: int| 0 <= k < es.len() && es[k].0 == u[0].0 && es[k].1 == u[0].1 && es[k].2 != id) {
            assert(u.skip(1)[i - 1] == u[i]);
            lemma_unique_conflict(es, u.skip(1), id, i - 1, j);
        }
    }
}

/// Only assigned ids have records: an existing object's id is at most `assigned()`.
pub proof fn lemma_record_assigned(s: Store, id: nat)
    requires
        s.record(id) is Some,
    ensures
        1 <= id <= s.assigned(),
{
}

/// Id allocation: saving an object that already exists keeps the all-set as it was,
/// since its id is already a member.
pub proof fn lemma_resave_keeps_all(s: Store, id: usize)
    requires
        s.live().contains(id),
    ensures
        s.live().insert(id) == s.live(),
{
    assert(s.live().insert(id) =~= s.live());
}

proof fn lemma_unique_tagged_contains(u: Seq<(Seq<char>, Seq<char>)>, t: usize, e: (Seq<char>, Seq<char>, usize))
    requires
        unique_tagged(u, t).contains(e),
    ensures
        e.2 == t,
        exists|i: int| 0 <= i < u.len() && #[trigger] u[i] == (e.0, e.1),
{
    let k = choose|k: int| 0 <= k < unique_tagged(u, t).len() && #[trigger] unique_tagged(u, t)[k] == e;
    assert(u[k] == (e.0, e.1));
}

/// A unique value belongs to at most one object: a save that finds no conflict keeps
/// the unique index consistent.
pub proof fn lemma_save_keeps_uniques_consistent(
    es: Seq<(Seq<char>, Seq<char>, usize)>,
    u: Seq<(Seq<char>, Seq<char>)>,
    t: usize,
)
    requires
        unique_consistent(es),
        conflict(es, u, t) is None,
    ensures
        unique_consistent(without_id(es, t) + unique_tagged(u, t)),
{
    let n = without_id(es, t) + unique_tagged(u, t);
    assert forall|a: (Seq<char>, Seq<char>, usize), b: (Seq<char>, Seq<char>, usize)|
        #[trigger] n.contains(a) && #[trigger] n.contains(b) && a.0 == b.0 && a.1 == b.1 implies a.2 == b.2 by {
        lemma_concat_contains(without_id(es, t), unique_tagged(u, t), a);
        lemma_concat_contains(without_id(es, t), unique_tagged(u, t), b);
        lemma_without_id_contains(es, t, a);
        lemma_without_id_contains(es, t, b);
        if unique_tagged(u, t).contains(a) {
            lemma_unique_tagged_contains(u, t, a);
        }
        if unique_tagged(u, t).contains(b) {
            lemma_unique_tagged_contains(u, t, b);
        }
        if without_id(es, t).contains(a) && unique_tagged(u, t).contains(b) {
            let i = choose|i: int| 0 <= i < u.len() && #[trigger] u[i] == (b.0, b.1);
            let j = choose|j: int| 0 <= j < es.len() && #[trigger] es[j] == a;
            lemma_unique_conflict(es, u, t, i, j);
        }
        if without_id(es, t).contains(b) && unique_tagged(u, t).contains(a) {
            let i = choose|i: int| 0 <= i < u.len() && #[trigger] u[i] == (a.0, a.1);
            let j = choose|j: int| 0 <= j < es.len() && #[trigger] es[j] == b;
            lemma_unique_conflict(es, u, t, i, j);
        }
    }
}

/// Removing an object's entries keeps the unique index consistent.
proof fn lemma_remove_keeps_uniques_consistent(es: Seq<(Seq<char>, Seq<char>, usize)>, t: usize)
    requires
        unique_consistent(es),
    ensures
        unique_consistent(without_id(es, t)),
{
    let n = without_id(es, t);
    assert forall|a: (Seq<char>, Seq<char>, usize), b: (Seq<char>, Seq<char>, usize)|
        #[trigger] n.contains(a) && #[trigger] n.contains(b) && a.0 == b.0 && a.1 == b.1 implies a.2 == b.2 by {
        lemma_without_id_contains(es, t, a);
        lemma_without_id_contains(es, t, b);
    }
}

/// Lexicographic order of texts, character by character; a prefix comes first.
pub open spec fn text_le(a: Seq<char>, b: Seq<char>) -> bool
    decreases a.len(),
{
    if a.len() == 0 {
        true
    } else if b.len() == 0 {
        false
    } else if a[0] != b[0] {
        a[0] < b[0]
    } else {
        text_le(a.skip(1), b.skip(1))
    }
}

proof fn lemma_text_le_total(a: Seq<char>, b: Seq<char>)
    ensures
        text_le(a, b) || text_le(b, a),
    decreases a.len(),
{
    if a.len() > 0 && b.len() > 0 && a[0] == b[0] {
        lemma_text_le_total(a.skip(1), b.skip(1));
    }
}

/// Whether `a` comes no later than `b` in lexicographic order.
pub fn text_le_exec(a: &str, b: &str) -> (r: bool)
    ensures
        r == text_le(a@, b@),
{
    let la = a.unicode_len();
    let lb = b.unicode_len();
    let mut i: usize = 0;
    assert(a@.skip(0) =~= a@ && b@.skip(0) =~= b@);
    while i < la && i < lb
        invariant
            la == a@.len(),
            lb == b@.len(),
            i <= la && i <= lb,
            text_le(a@, b@) == text_le(a@.skip(i as int), b@.skip(i as int)),
        decreases la - i,
    {
        let ca = a.get_char(i);
        let cb = b.get_char(i);
        assert(a@.skip(i as int)[0] == ca && b@.skip(i as int)[0] == cb);
        if ca != cb {
            return ca < cb;
        }
        assert(a@.skip(i as int).skip(1) =~= a@.skip(i + 1));
        assert(b@.skip(i as int).skip(1) =~= b@.skip(i + 1));
        i = i + 1;
    }
    la <= lb
}

/// The text a sort compares for `id`: its field `by`, empty when there is none.
pub open spec fn sort_key(s: Store, id: usize, by: Seq<char>) -> Seq<char> {
    match s.record(id as nat) {
        Some(rec) => match lookup(rec, by) {
            Some(v) => v,
            None => Seq::empty(),
        },
        None => Seq::empty(),
    }
}

/// Each id's key comes no later (ascending) or no earlier (descending) than the next's.
pub open spec fn ordered_by(s: Store, ids: Seq<usize>, by: Seq<char>, asc: bool) -> bool {
    forall|k: int|
        0 <= k < ids.len() - 1 ==> if asc {
            text_le(sort_key(s, #[trigger] ids[k], by), sort_key(s, ids[k + 1], by))
        } else {
            text_le(sort_key(s, ids[k + 1], by), sort_key(s, #[trigger] ids[k], by))
        }
}

/// The items `offset .. offset + count` of `full`, or all of them without a limit.
pub open spec fn window(full: Seq<usize>, limit: Option<(usize, usize)>) -> Seq<usize> {
    match limit {
        None => full,
        Some(l) => if l.0 >= full.len() {
            Seq::empty()
        } else if l.0 + l.1 >= full.len() {
            full.subrange(l.0 as int, full.len() as int)
        } else {
            full.subrange(l.0 as int, l.0 + l.1)
        },
    }
}

impl Store {
    fn sort_key_of(&self, id: usize, by: &str) -> (r: String)
        ensures
            r@ == sort_key(*self, id, by@),
    {
        if id == 0 || id > self.records.len() {
            return String::new();
        }
        match &self.records[id - 1] {
            Some(rec) => match find_key(rec, by) {
                Some(j) => rec[j].1.clone(),
                None => String::new(),
            },
            None => String::new(),
        }
    }

    /// Sorts `ids` by the text of their field `by`, lexicographically, ascending or
    /// descending, and keeps the window `(offset, count)` when a limit is given.
    pub fn sort(&self, ids: &Vec<usize>, by: &str, limit: Option<(usize, usize)>, asc: bool) -> (r: Vec<usize>)
        ensures
            exists|full: Seq<usize>|
                full.to_multiset() == ids@.to_multiset() && ordered_by(*self, full, by@, asc) && r@ == window(full, limit),
    {
        let mut keys: Vec<String> = Vec::new();
        let mut sorted: Vec<usize> = Vec::new();
        let mut i: usize = 0;
        assert(ids@.take(0) =~= Seq::<usize>::empty());
        while i < ids.len()
            invariant
                i <= ids@.len(),
                keys@.len() == sorted@.len(),
                forall|k: int| 0 <= k < sorted@.len() ==> (#[trigger] keys@[k])@ == sort_key(*self, sorted@[k], by@),
                ordered_by(*self, sorted@, by@, true),
                sorted@.to_multiset() == ids@.take(i as int).to_multiset(),
            decreases ids.len() - i,
        {
            let id = ids[i];
            let key = self.sort_key_of(id, by);
            let mut j: usize = 0;
            while j < sorted.len() && text_le_exec(keys[j].as_str(), key.as_str())
                invariant
                    j <= sorted@.len(),
                    keys@.len() == sorted@.len(),
                    forall|k: int| 0 <= k < sorted@.len() ==> (#[trigger] keys@[k])@ == sort_key(*self, sorted@[k], by@),
                    j > 0 ==> text_le(sort_key(*self, sorted@[j - 1], by@), key@),
                decreases sorted.len() - j,
            {
                j = j + 1;
            }
            let ghost before = sorted@;
            proof {
                if j < sorted@.len() {
                    lemma_text_le_total(keys@[j as int]@, key@);
                }
            }
            sorted.insert(j, id);
            keys.insert(j, key);
            assert(sorted@ == before.insert(j as int, id));
            assert forall|k: int| 0 <= k < sorted@.len() - 1 implies text_le(
                sort_key(*self, #[trigger] sorted@[k], by@),
                sort_key(*self, sorted@[k + 1], by@),
            ) by {
                if k + 1 < j {
                    assert(sorted@[k] == before[k] && sorted@[k + 1] == before[k + 1]);
                } else if k + 1 == j {
                    assert(sorted@[k] == before[k] && sorted@[k + 1] == id);
                } else if k == j {
                    assert(sorted@[k] == id && sorted@[k + 1] == before[k]);
                } else {
                    assert(sorted@[k] == before[k - 1] && sorted@[k + 1] == before[k]);
                }
            }
            assert forall|k: int| 0 <= k < sorted@.len() implies (#[trigger] keys@[k])@ == sort_key(*self, sorted@[k], by@) by {
                if k < j {
                    assert(sorted@[k] == before[k]);
                } else if k > j {
                    assert(sorted@[k] == before[k - 1]);
                }
            }
            assert(ids@.take(i + 1) =~= ids@.take(i as int).push(id));
            proof {
                vstd::seq_lib::to_multiset_insert(before, j as int, id);
                vstd::seq_lib::to_multiset_build(ids@.take(i as int), id);
            }
            i = i + 1;
        }
        assert(ids@.take(i as int) =~= ids@);
        let ghost full: Seq<usize> = if asc { sorted@ } else { sorted@.reverse() };
        let mut ordered: Vec<usize> = Vec::new();
        if asc {
            ordered = sorted;
        } else {
            let mut k: usize = sorted.len();
            while k > 0
                invariant
                    k <= sorted@.len(),
                    ordered@ == sorted@.reverse().take((sorted@.len() - k) as int),
                decreases k,
            {
                k = k - 1;
                ordered.push(sorted[k]);
                assert(ordered@ =~= sorted@.reverse().take((sorted@.len() - k) as int));
            }
            assert(ordered@ =~= sorted@.reverse());
            proof {
                sorted@.lemma_reverse_to_multiset();
                assert forall|k: int| 0 <= k < full.len() - 1 implies text_le(
                    sort_key(*self, full[k + 1], by@),
                    sort_key(*self, #[trigger] full[k], by@),
                ) by {
                    let n = sorted@.len() as int;
                    assert(full[k] == sorted@[n - 1 - k]);
                    assert(full[k + 1] == sorted@[n - 2 - k]);
                    assert(text_le(sort_key(*self, sorted@[n - 2 - k], by@), sort_key(*self, sorted@[n - 2 - k + 1], by@)));
                }
            }
        }
        assert(ordered@ == full);
        let r = match limit {
            None => ordered,
            Some((offset, count)) => {
                let mut out: Vec<usize> = Vec::new();
                if offset < ordered.len() {
                    let end = if count >= ordered.len() - offset { ordered.len() } else { offset + count };
                    let mut k: usize = offset;
                    while k < end
                        invariant
                            offset <= k <= end <= ordered@.len(),
                            out@ == ordered@.subrange(offset as int, k as int),
                        decreases end - k,
                    {
                        out.push(ordered[k]);
                        assert(out@ =~= ordered@.subrange(offset as int, k + 1));
                        k = k + 1;
                    }
                } else {
                    assert(window(full, limit) =~= Seq::<usize>::empty());
                }
                out
            },
        };
        assert(r@ == window(full, limit));
        r
    }
}

/// Each id's counter `prop` is no larger (ascending) or no smaller (descending) than
/// the next's.
pub open spec fn ordered_by_counter(s: Store, ids: Seq<usize>, prop: Seq<char>, asc: bool) -> bool {
    forall|k: int|
        0 <= k < ids.len() - 1 ==> if asc {
            s.counter(#[trigger] ids[k], prop) <= s.counter(ids[k + 1], prop)
        } else {
            s.counter(ids[k + 1], prop) <= s.counter(#[trigger] ids[k], prop)
        }
}

impl Store {
    /// Sorts `ids` numerically by their counter `prop`, ascending or descending, and
    /// keeps the window `(offset, count)` when a limit is given.
    pub fn sort_by_counter(&self, ids: &Vec<usize>, prop: &str, limit: Option<(usize, usize)>, asc: bool) -> (r: Vec<usize>)
        ensures
            exists|full: Seq<usize>|
                full.to_multiset() == ids@.to_multiset() && ordered_by_counter(*self, full, prop@, asc) && r@ == window(full, limit),
    {
        let mut sorted: Vec<usize> = Vec::new();
        let mut keys: Vec<i64> = Vec::new();
        let mut i: usize = 0;
        assert(ids@.take(0) =~= Seq::<usize>::empty());
        while i < ids.len()
            invariant
                i <= ids@.len(),
                keys@.len() == sorted@.len(),
                forall|k: int| 0 <= k < sorted@.len() ==> #[trigger] keys@[k] == self.counter(sorted@[k], prop@),
                forall|k: int| 0 <= k < sorted@.len() - 1 ==> self.counter(#[trigger] sorted@[k], prop@) <= self.counter(sorted@[k + 1], prop@),
                sorted@.to_multiset() == ids@.take(i as int).to_multiset(),
            decreases ids.len() - i,
        {
            let id = ids[i];
            let key = self.get_counter(id, prop);
            let mut j: usize = 0;
            while j < sorted.len() && keys[j] <= key
                invariant
                    j <= sorted@.len(),
                    keys@.len() == sorted@.len(),
                    forall|k: int| 0 <= k < sorted@.len() ==> #[trigger] keys@[k] == self.counter(sorted@[k], prop@),
                    j > 0 ==> self.counter(sorted@[j - 1], prop@) <= key,
                decreases sorted.len() - j,
            {
                j = j + 1;
            }
            let ghost before = sorted@;
            sorted.insert(j, id);
            keys.insert(j, key);
            assert forall|k: int| 0 <= k < sorted@.len() - 1 implies self.counter(#[trigger] sorted@[k], prop@) <= self.counter(sorted@[k + 1], prop@) by {
                if k + 1 < j {
                    assert(sorted@[k] == before[k] && sorted@[k + 1] == before[k + 1]);
                } else if k + 1 == j {
                    assert(sorted@[k] == before[k] && sorted@[k + 1] == id);
                } else if k == j {
                    assert(sorted@[k] == id && sorted@[k + 1] == before[k]);
                } else {
                    assert(sorted@[k] == before[k - 1] && sorted@[k + 1] == before[k]);
                }
            }
            assert forall|k: int| 0 <= k < sorted@.len() implies #[trigger] keys@[k] == self.counter(sorted@[k], prop@) by {
                if k < j {
                    assert(sorted@[k] == before[k]);
                } else if k > j {
                    assert(sorted@[k] == before[k - 1]);
                }
            }
            assert(ids@.take(i + 1) =~= ids@.take(i as int).push(id));
            proof {
                vstd::seq_lib::to_multiset_insert(before, j as int, id);
                vstd::seq_lib::to_multiset_build(ids@.take(i as int), id);
            }
            i = i + 1;
        }
        assert(ids@.take(i as int) =~= ids@);
        let ghost full: Seq<usize> = if asc { sorted@ } else { sorted@.reverse() };
        let mut ordered: Vec<usize> = Vec::new();
        if asc {
            ordered = sorted;
        } else {
            let mut k: usize = sorted.len();
            while k > 0
                invariant
                    k <= sorted@.len(),
                    ordered@ == sorted@.reverse().take((sorted@.len() - k) as int),
                decreases k,
            {
                k = k - 1;
                ordered.push(sorted[k]);
                assert(ordered@ =~= sorted@.reverse().take((sorted@.len() - k) as int));
            }
            assert(ordered@ =~= sorted@.reverse());
            proof {
                sorted@.lemma_reverse_to_multiset();
                assert forall|k: int| 0 <= k < full.len() - 1 implies self.counter(full[k + 1], prop@) <= self.counter(#[trigger] full[k], prop@) by {
                    let n = sorted@.len() as int;
                    assert(full[k] == sorted@[n - 1 - k]);
                    assert(full[k + 1] == sorted@[n - 2 - k]);
                    assert(self.counter(sorted@[n - 2 - k], prop@) <= self.counter(sorted@[n - 2 - k + 1], prop@));
                }
            }
        }
        assert(ordered@ == full);
        let r = match limit {
            None => ordered,
            Some((offset, count)) => {
                let mut out: Vec<usize> = Vec::new();
                if offset < ordered.len() {
                    let end = if count >= ordered.len() - offset { ordered.len() } else { offset + count };
                    let mut k: usize = offset;
                    while k < end
                        invariant
                            offset <= k <= end <= ordered@.len(),
                            out@ == ordered@.subrange(offset as int, k as int),
                        decreases end - k,
                    {
                        out.push(ordered[k]);
                        assert(out@ =~= ordered@.subrange(offset as int, k + 1));
                        k = k + 1;
                    }
                } else {
                    assert(window(full, limit) =~= Seq::<usize>::empty());
                }
                out
            },
        };
        assert(r@ == window(full, limit));
        r
    }
}

} // verus!
