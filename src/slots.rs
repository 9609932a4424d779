//! Values kept per (owner id, property name): the storage shape of counters, lists
//! and sets. A lookup finds the first slot of the key, so an update touches exactly
//! one key.
use vstd::prelude::*;
use crate::text::same_text;

verus! {

pub struct Slot<T> {
    pub owner: usize,
    pub prop: String,
    pub value: T,
}

/// The value of the first slot of `(owner, prop)`.
pub open spec fn slot_value<T>(s: Seq<Slot<T>>, owner: usize, prop: Seq<char>) -> Option<T>
    decreases s.len(),
{
    if s.len() == 0 {
        None
    } else if s[0].owner == owner && s[0].prop@ == prop {
        Some(s[0].value)
    } else {
        slot_value(s.skip(1), owner, prop)
    }
}

/// The position of the first slot of `(owner, prop)`.
pub fn find_slot<T>(slots: &Vec<Slot<T>>, owner: usize, prop: &str) -> (r: Option<usize>)
    ensures
        match r {
            Some(i) => i < slots@.len() && slots@[i as int].owner == owner && slots@[i as int].prop@
                == prop@ && slot_value(slots@, owner, prop@) == Some(slots@[i as int].value)
                && forall|j: int| 0 <= j < i ==> !(slots@[j].owner == owner && slots@[j].prop@ == prop@),
            None => slot_value(slots@, owner, prop@) is None && forall|j: int|
                0 <= j < slots@.len() ==> !(slots@[j].owner == owner && slots@[j].prop@ == prop@),
        },
{
    let n = slots.len();
    let mut i: usize = 0;
    assert(slots@.skip(0) =~= slots@);
    while i < n
        invariant
            n == slots@.len(),
            i <= n,
            slot_value(slots@, owner, prop@) == slot_value(slots@.skip(i as int), owner, prop@),
            forall|j: int| 0 <= j < i ==> !(slots@[j].owner == owner && slots@[j].prop@ == prop@),
        decreases n - i,
    {
        assert(slots@.skip(i as int)[0] == slots@[i as int]);
        assert(slots@.skip(i as int).skip(1) =~= slots@.skip(i + 1));
        if slots[i].owner == owner && same_text(slots[i].prop.as_str(), prop) {
            return Some(i);
        }
        i = i + 1;
    }
    None
}

proof fn lemma_slot_update<T>(s: Seq<Slot<T>>, i: int, x: Slot<T>, owner: usize, prop: Seq<char>)
    requires
        0 <= i < s.len(),
        s[i].owner == x.owner && s[i].prop@ == x.prop@,
        forall|j: int| 0 <= j < i ==> !(s[j].owner == x.owner && s[j].prop@ == x.prop@),
    ensures
        slot_value(s.update(i, x), owner, prop) == if owner == x.owner && prop == x.prop@ {
            Some(x.value)
        } else {
            slot_value(s, owner, prop)
        },
    decreases s.len(),
{
    let t = s.update(i, x);
    if i > 0 {
        assert(t.skip(1) =~= s.skip(1).update(i - 1, x));
        assert(t[0] == s[0]);
        assert forall|j: int| 0 <= j < i - 1 implies !(s.skip(1)[j].owner == x.owner && s.skip(
            1,
        )[j].prop@ == x.prop@) by {
            assert(s.skip(1)[j] == s[j + 1]);
        }
        lemma_slot_update(s.skip(1), i - 1, x, owner, prop);
    } else {
        assert(t.skip(1) =~= s.skip(1));
        assert(t[0] == x);
    }
}

proof fn lemma_slot_push<T>(s: Seq<Slot<T>>, x: Slot<T>, owner: usize, prop: Seq<char>)
    requires
        forall|j: int| 0 <= j < s.len() ==> !(s[j].owner == x.owner && s[j].prop@ == x.prop@),
    ensures
        slot_value(s.push(x), owner, prop) == if owner == x.owner && prop == x.prop@ {
            Some(x.value)
        } else {
            slot_value(s, owner, prop)
        },
    decreases s.len(),
{
    let t = s.push(x);
    if s.len() == 0 {
        assert(t.skip(1) =~= Seq::<Slot<T>>::empty());
        assert(t[0] == x);
        assert(slot_value(t.skip(1), owner, prop) is None);
    } else {
        assert(t.skip(1) =~= s.skip(1).push(x));
        assert(t[0] == s[0]);
        assert forall|j: int| 0 <= j < s.skip(1).len() implies !(s.skip(1)[j].owner == x.owner
            && s.skip(1)[j].prop@ == x.prop@) by {
            assert(s.skip(1)[j] == s[j + 1]);
        }
        lemma_slot_push(s.skip(1), x, owner, prop);
    }
}

/// Sets the value of `(owner, prop)`; every other key keeps its value.
pub fn put_slot<T>(slots: &mut Vec<Slot<T>>, owner: usize, prop: &str, value: T)
    ensures
        forall|o: usize, p: Seq<char>|
            #[trigger] slot_value(final(slots)@, o, p) == if o == owner && p == prop@ {
                Some(value)
            } else {
                slot_value(old(slots)@, o, p)
            },
{
    let x = Slot { owner, prop: String::from_str(prop), value };
    let ghost gx = x;
    match find_slot(slots, owner, prop) {
        Some(i) => {
            let ghost s = slots@;
            slots.set(i, x);
            assert forall|o: usize, p: Seq<char>|
                #[trigger] slot_value(slots@, o, p) == if o == owner && p == prop@ {
                    Some(gx.value)
                } else {
                    slot_value(s, o, p)
                } by {
                lemma_slot_update(s, i as int, gx, o, p);
            }
        },
        None => {
            let ghost s = slots@;
            slots.push(x);
            assert forall|o: usize, p: Seq<char>|
                #[trigger] slot_value(slots@, o, p) == if o == owner && p == prop@ {
                    Some(gx.value)
                } else {
                    slot_value(s, o, p)
                } by {
                lemma_slot_push(s, gx, o, p);
            }
        },
    }
}

} // verus!
