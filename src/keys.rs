//! The store's key layout.
use vstd::prelude::*;
use crate::text::{decimal, usize_text};

verus! {

/// `{class}:{id}`: the record hash of an object.
pub open spec fn record_key_of(class: Seq<char>, id: nat) -> Seq<char> {
    class + ":"@ + decimal(id)
}

/// `{class}:all`: every id ever assigned in the class.
pub open spec fn all_key_of(class: Seq<char>) -> Seq<char> {
    class + ":all"@
}

/// `{class}:uniques:{field}`: the unique index of a field.
pub open spec fn uniques_key_of(class: Seq<char>, field: Seq<char>) -> Seq<char> {
    class + ":uniques:"@ + field
}

/// `{class}:uniques:{field}:{value}`.
pub open spec fn unique_entry_key_of(class: Seq<char>, field: Seq<char>, value: Seq<char>) -> Seq<
    char,
> {
    uniques_key_of(class, field) + ":"@ + value
}

/// `{class}:indices:{field}:{value}`: the ids whose field held the value.
pub open spec fn index_key_of(class: Seq<char>, field: Seq<char>, value: Seq<char>) -> Seq<char> {
    class + ":indices:"@ + field + ":"@ + value
}

/// `{class}:{property}:{id}`: a set or list property of an object.
pub open spec fn property_key_of(class: Seq<char>, property: Seq<char>, id: nat) -> Seq<char> {
    class + ":"@ + property + ":"@ + decimal(id)
}

/// `{class}:{id}:{property}`: a counter property of an object.
pub open spec fn counter_key_of(class: Seq<char>, id: nat, property: Seq<char>) -> Seq<char> {
    class + ":"@ + decimal(id) + ":"@ + property
}

/// The per-element lookup of a sort: a counter's key, or a field of the record hash.
pub open spec fn sort_pattern_of(class: Seq<char>, field: Seq<char>, counter: bool) -> Seq<char> {
    if counter {
        class + ":*:"@ + field
    } else {
        class + ":*->"@ + field
    }
}

pub fn record_key(class: &str, id: usize) -> (r: String)
    ensures
        r@ == record_key_of(class@, id as nat),
{
    let mut k = String::from_str(class);
    k.append(":");
    k.append(usize_text(id).as_str());
    k
}

pub fn all_key(class: &str) -> (r: String)
    ensures
        r@ == all_key_of(class@),
{
    let mut k = String::from_str(class);
    k.append(":all");
    k
}

pub fn uniques_key(class: &str, field: &str) -> (r: String)
    ensures
        r@ == uniques_key_of(class@, field@),
{
    let mut k = String::from_str(class);
    k.append(":uniques:");
    k.append(field);
    k
}

pub fn unique_entry_key(class: &str, field: &str, value: &str) -> (r: String)
    ensures
        r@ == unique_entry_key_of(class@, field@, value@),
{
    let mut k = uniques_key(class, field);
    k.append(":");
    k.append(value);
    k
}

pub fn index_key(class: &str, field: &str, value: &str) -> (r: String)
    ensures
        r@ == index_key_of(class@, field@, value@),
{
    let mut k = String::from_str(class);
    k.append(":indices:");
    k.append(field);
    k.append(":");
    k.append(value);
    k
}

pub fn property_key(class: &str, property: &str, id: usize) -> (r: String)
    ensures
        r@ == property_key_of(class@, property@, id as nat),
{
    let mut k = String::from_str(class);
    k.append(":");
    k.append(property);
    k.append(":");
    k.append(usize_text(id).as_str());
    k
}

pub fn counter_key(class: &str, id: usize, property: &str) -> (r: String)
    ensures
        r@ == counter_key_of(class@, id as nat, property@),
{
    let mut k = String::from_str(class);
    k.append(":");
    k.append(usize_text(id).as_str());
    k.append(":");
    k.append(property);
    k
}

pub fn sort_pattern(class: &str, field: &str, counter: bool) -> (r: String)
    ensures
        r@ == sort_pattern_of(class@, field@, counter),
{
    let mut k = String::from_str(class);
    if counter {
        k.append(":*:");
    } else {
        k.append(":*->");
    }
    k.append(field);
    k
}

} // verus!
