//! Properties that live outside the record: references, counters, sets, lists and
//! reverse-lookup collections, and the keys they are kept under.
use vstd::prelude::*;
use crate::encoder::reference_key;
use crate::keys::{counter_key, counter_key_of, property_key, property_key_of};
use crate::persist::OhmerError;
use crate::query::{is_index_set, is_key_set, key_set, Query};
use crate::store::{list_range_of, list_updated, remove_all, same_lists, same_members, same_objects, set_updated, Store};
use crate::text::{decimal, lowercase, usize_text};

verus! {

/// `Err(NotSaved)` for a transient owner, else `Ok` of the key.
pub open spec fn keyed(owner_id: nat, key: Seq<char>, r: Result<String, OhmerError>) -> bool {
    if owner_id == 0 {
        r matches Err(OhmerError::NotSaved)
    } else {
        r matches Ok(k) && k@ == key
    }
}

/// A property holding another object's id; 0 points nowhere.
#[derive(Debug, Clone, Copy, PartialEq, Eq)]
pub struct Reference {
    id: usize,
}

impl Reference {
    pub closed spec fn target(&self) -> nat {
        self.id as nat
    }

    pub fn new() -> (r: Reference)
        ensures
            r.target() == 0,
    {
        Reference { id: 0 }
    }

    pub fn with_value(id: usize) -> (r: Reference)
        ensures
            r.target() == id,
    {
        Reference { id }
    }

    pub fn set(&mut self, id: usize)
        ensures
            final(self).target() == id,
    {
        self.id = id;
    }

    pub fn id(&self) -> (r: usize)
        ensures
            r == self.target(),
    {
        self.id
    }
}

/// An atomic integer kept at `{class}:{id}:{property}`.
#[derive(Debug, Clone, Copy, PartialEq, Eq)]
pub struct Counter;

impl Counter {
    /// The counter's key; a transient owner has none.
    pub fn get_key(&self, class: &str, id: usize, property: &str) -> (r: Result<
        String,
        OhmerError,
    >)
        ensures
            keyed(id as nat, counter_key_of(class@, id as nat, property@), r),
    {
        if id == 0 {
            return Err(OhmerError::NotSaved);
        }
        Ok(counter_key(class, id, property))
    }

    /// Adds `by` to the counter `prop` of the object `id` and returns the new value.
    pub fn incr(&self, id: usize, prop: &str, by: i64, store: &mut Store) -> (r: Result<i64, OhmerError>)
        requires
            old(store).wf(),
        ensures
            final(store).wf(),
            id == 0 ==> (r matches Err(OhmerError::NotSaved)) && *final(store) == *old(store),
            id != 0 && i64::MIN <= old(store).counter(id, prop@) + by <= i64::MAX ==> {
                &&& r == Ok::<i64, OhmerError>((old(store).counter(id, prop@) + by) as i64)
                &&& final(store).counter(id, prop@) == old(store).counter(id, prop@) + by
                &&& forall|o: usize, p: Seq<char>| !(o == id && p == prop@) ==> #[trigger] final(store).counter(o, p) == old(store).counter(o, p)
                &&& final(store).same_but_counters(old(store))
                &&& same_objects(*final(store), *old(store))
                &&& same_lists(*final(store), *old(store))
                &&& same_members(*final(store), *old(store))
            },
            id != 0 && !(i64::MIN <= old(store).counter(id, prop@) + by <= i64::MAX) ==> (r matches Err(
                OhmerError::CommandError(b),
            ) && b@ == crate::query::bytes_of("INCRBY"@)) && *final(store) == *old(store),
    {
        store.incr(id, prop, by)
    }

    /// The counter `prop` of the object `id`: 0 until it is first incremented.
    pub fn get(&self, id: usize, prop: &str, store: &Store) -> (r: Result<i64, OhmerError>)
        ensures
            id == 0 ==> r matches Err(OhmerError::NotSaved),
            id != 0 ==> r == Ok::<i64, OhmerError>(store.counter(id, prop@)),
    {
        store.counter_get(id, prop)
    }

    /// The counter's value: what the store holds, and 0 while it holds nothing.
    pub fn value(&self, stored: Option<i64>) -> (r: i64)
        ensures
            r == match stored {
                Some(v) => v,
                None => 0,
            },
    {
        match stored {
            Some(v) => v,
            None => 0,
        }
    }
}

/// An ordered sequence of ids kept at `{class}:{property}:{id}`.
#[derive(Debug, Clone, Copy, PartialEq, Eq)]
pub struct List;

impl List {
    pub fn new() -> List {
        List
    }

    /// The list's key; a transient owner has none.
    pub fn key_name(&self, class: &str, property: &str, id: usize) -> (r: Result<
        String,
        OhmerError,
    >)
        ensures
            keyed(id as nat, property_key_of(class@, property@, id as nat), r),
    {
        if id == 0 {
            return Err(OhmerError::NotSaved);
        }
        Ok(property_key(class, property, id))
    }

    pub fn len(&self, property: &str, parent: usize, store: &Store) -> (r: Result<usize, OhmerError>)
        ensures
            parent == 0 ==> r matches Err(OhmerError::NotSaved),
            parent != 0 ==> r == Ok::<usize, OhmerError>(store.list(parent, property@).len() as usize),
    {
        store.list_len(parent, property)
    }

    pub fn push_back(&self, property: &str, parent: usize, obj: usize, store: &mut Store) -> (r: Result<usize, OhmerError>)
        requires
            old(store).wf(),
        ensures
            final(store).wf(),
            parent == 0 ==> (r matches Err(OhmerError::NotSaved)) && *final(store) == *old(store),
            parent != 0 ==> list_updated(*final(store), *old(store), parent, property@, old(store).list(parent, property@).push(obj))
                && r == Ok::<usize, OhmerError>(final(store).list(parent, property@).len() as usize),
    {
        store.push_back(parent, property, obj)
    }

    pub fn push_front(&self, property: &str, parent: usize, obj: usize, store: &mut Store) -> (r: Result<usize, OhmerError>)
        requires
            old(store).wf(),
        ensures
            final(store).wf(),
            parent == 0 ==> (r matches Err(OhmerError::NotSaved)) && *final(store) == *old(store),
            parent != 0 ==> list_updated(*final(store), *old(store), parent, property@, seq![obj] + old(store).list(parent, property@))
                && r == Ok::<usize, OhmerError>(final(store).list(parent, property@).len() as usize),
    {
        store.push_front(parent, property, obj)
    }

    pub fn pop_back(&self, property: &str, parent: usize, store: &mut Store) -> (r: Result<Option<usize>, OhmerError>)
        requires
            old(store).wf(),
        ensures
            final(store).wf(),
            parent == 0 ==> (r matches Err(OhmerError::NotSaved)) && *final(store) == *old(store),
            parent != 0 && old(store).list(parent, property@).len() == 0 ==> r == Ok::<Option<usize>, OhmerError>(None) && *final(store) == *old(store),
            parent != 0 && old(store).list(parent, property@).len() > 0 ==> r == Ok::<Option<usize>, OhmerError>(Some(old(store).list(parent, property@).last()))
                && list_updated(*final(store), *old(store), parent, property@, old(store).list(parent, property@).drop_last()),
    {
        store.pop_back(parent, property)
    }

    pub fn pop_front(&self, property: &str, parent: usize, store: &mut Store) -> (r: Result<Option<usize>, OhmerError>)
        requires
            old(store).wf(),
        ensures
            final(store).wf(),
            parent == 0 ==> (r matches Err(OhmerError::NotSaved)) && *final(store) == *old(store),
            parent != 0 && old(store).list(parent, property@).len() == 0 ==> r == Ok::<Option<usize>, OhmerError>(None) && *final(store) == *old(store),
            parent != 0 && old(store).list(parent, property@).len() > 0 ==> r == Ok::<Option<usize>, OhmerError>(Some(old(store).list(parent, property@)[0]))
                && list_updated(*final(store), *old(store), parent, property@, old(store).list(parent, property@).skip(1)),
    {
        store.pop_front(parent, property)
    }

    pub fn first(&self, property: &str, parent: usize, store: &Store) -> (r: Result<Option<usize>, OhmerError>)
        ensures
            parent == 0 ==> r matches Err(OhmerError::NotSaved),
            parent != 0 ==> r == Ok::<Option<usize>, OhmerError>(if store.list(parent, property@).len() == 0 {
                None
            } else {
                Some(store.list(parent, property@)[0])
            }),
    {
        store.list_first(parent, property)
    }

    pub fn last(&self, property: &str, parent: usize, store: &Store) -> (r: Result<Option<usize>, OhmerError>)
        ensures
            parent == 0 ==> r matches Err(OhmerError::NotSaved),
            parent != 0 ==> r == Ok::<Option<usize>, OhmerError>(if store.list(parent, property@).len() == 0 {
                None
            } else {
                Some(store.list(parent, property@).last())
            }),
    {
        store.list_last(parent, property)
    }

    /// The ids in positions `start ..= end`; a negative bound counts from the end.
    pub fn try_range(&self, property: &str, parent: usize, start: isize, end: isize, store: &Store) -> (r: Result<Vec<usize>, OhmerError>)
        ensures
            parent == 0 ==> r matches Err(OhmerError::NotSaved),
            parent != 0 && store.list(parent, property@).len() <= isize::MAX ==> (r matches Ok(v) && v@ == list_range_of(store.list(parent, property@), start as int, end as int)),
    {
        store.list_range(parent, property, start, end)
    }

    /// Every id of the list, in order.
    pub fn try_iter(&self, property: &str, parent: usize, store: &Store) -> (r: Result<Vec<usize>, OhmerError>)
        ensures
            parent == 0 ==> r matches Err(OhmerError::NotSaved),
            parent != 0 ==> (r matches Ok(v) && v@ == store.list(parent, property@)),
    {
        store.list_items(parent, property)
    }

    pub fn contains(&self, property: &str, parent: usize, obj: usize, store: &Store) -> (r: Result<bool, OhmerError>)
        ensures
            parent == 0 ==> r matches Err(OhmerError::NotSaved),
            parent != 0 ==> r == Ok::<bool, OhmerError>(store.list(parent, property@).contains(obj)),
    {
        store.list_contains(parent, property, obj)
    }

    /// Removes every occurrence of `obj` and returns how many there were.
    pub fn remove(&self, property: &str, parent: usize, obj: usize, store: &mut Store) -> (r: Result<usize, OhmerError>)
        requires
            old(store).wf(),
        ensures
            final(store).wf(),
            parent == 0 ==> (r matches Err(OhmerError::NotSaved)) && *final(store) == *old(store),
            parent != 0 ==> list_updated(*final(store), *old(store), parent, property@, remove_all(old(store).list(parent, property@), obj))
                && r == Ok::<usize, OhmerError>((old(store).list(parent, property@).len() - remove_all(old(store).list(parent, property@), obj).len()) as usize),
    {
        store.list_remove(parent, property, obj)
    }
}

/// A membership set of ids kept at `{class}:{property}:{id}`.
#[derive(Debug, Clone, Copy, PartialEq, Eq)]
pub struct SetProperty;

impl SetProperty {
    pub fn new() -> SetProperty {
        SetProperty
    }

    /// The set's key; a transient owner has none.
    pub fn key_name(&self, class: &str, property: &str, id: usize) -> (r: Result<
        String,
        OhmerError,
    >)
        ensures
            keyed(id as nat, property_key_of(class@, property@, id as nat), r),
    {
        if id == 0 {
            return Err(OhmerError::NotSaved);
        }
        Ok(property_key(class, property, id))
    }

    /// The set as a leaf of a query.
    pub fn key(&self, class: &str, property: &str, id: usize) -> (r: Result<
        stal::Set,
        OhmerError,
    >)
        ensures
            id == 0 ==> r matches Err(OhmerError::NotSaved),
            id != 0 ==> (r matches Ok(s) && is_key_set(
                s,
                property_key_of(class@, property@, id as nat),
            )),
    {
        let k = self.key_name(class, property, id)?;
        Ok(key_set(k.as_str()))
    }

    /// A query over the members of the set, which are objects of `member_class`.
    pub fn query(&self, class: &str, property: &str, id: usize, member_class: &str) -> (r: Result<
        Query,
        OhmerError,
    >)
        ensures
            id == 0 ==> r matches Err(OhmerError::NotSaved),
            id != 0 ==> (r matches Ok(q) && q.class@ == member_class@ && is_key_set(
                q.set,
                property_key_of(class@, property@, id as nat),
            )),
    {
        let set = self.key(class, property, id)?;
        Ok(Query::new(member_class, set))
    }

    /// Adds `obj`; `false` when it was already a member.
    pub fn insert(&self, property: &str, parent: usize, obj: usize, store: &mut Store) -> (r: Result<bool, OhmerError>)
        requires
            old(store).wf(),
        ensures
            final(store).wf(),
            parent == 0 ==> (r matches Err(OhmerError::NotSaved)) && *final(store) == *old(store),
            parent != 0 ==> r == Ok::<bool, OhmerError>(!old(store).members(parent, property@).contains(obj))
                && set_updated(*final(store), *old(store), parent, property@, old(store).members(parent, property@).insert(obj)),
    {
        store.set_insert(parent, property, obj)
    }

    /// Takes `obj` out; `false` when it was not a member.
    pub fn remove(&self, property: &str, parent: usize, obj: usize, store: &mut Store) -> (r: Result<bool, OhmerError>)
        requires
            old(store).wf(),
        ensures
            final(store).wf(),
            parent == 0 ==> (r matches Err(OhmerError::NotSaved)) && *final(store) == *old(store),
            parent != 0 ==> r == Ok::<bool, OhmerError>(old(store).members(parent, property@).contains(obj))
                && set_updated(*final(store), *old(store), parent, property@, old(store).members(parent, property@).remove(obj)),
    {
        store.set_remove(parent, property, obj)
    }

    pub fn contains(&self, property: &str, parent: usize, obj: usize, store: &Store) -> (r: Result<bool, OhmerError>)
        requires
            store.wf(),
        ensures
            parent == 0 ==> r matches Err(OhmerError::NotSaved),
            parent != 0 ==> r == Ok::<bool, OhmerError>(store.members(parent, property@).contains(obj)),
    {
        store.set_contains(parent, property, obj)
    }

    pub fn len(&self, property: &str, parent: usize, store: &Store) -> (r: Result<usize, OhmerError>)
        requires
            store.wf(),
        ensures
            parent == 0 ==> r matches Err(OhmerError::NotSaved),
            parent != 0 ==> r == Ok::<usize, OhmerError>(store.members(parent, property@).len() as usize),
    {
        store.set_len(parent, property)
    }
}

/// A read-only reverse lookup: the objects of a class whose reference field points at
/// the owner.
#[derive(Debug, Clone, Copy, PartialEq, Eq)]
pub struct Collection;

impl Collection {
    pub fn new() -> Collection {
        Collection
    }

    /// The objects of `class` whose reference `property` holds `parent_id`.
    pub fn all(&self, class: &str, property: &str, parent_id: usize) -> (r: Query)
        ensures
            r.class@ == class@,
            is_index_set(r.set, class@, reference_key(property@), decimal(parent_id as nat)),
    {
        let mut field = lowercase(property);
        field.append("_id");
        Query::find(class, field.as_str(), usize_text(parent_id).as_str())
    }
}

} // verus!
