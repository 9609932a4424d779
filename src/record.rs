//! What the record of an encoded object holds, and that decoding reads it back.
use vstd::prelude::*;
use crate::decoder::{field_text, lookup, pairs_of};
use crate::encoder::{encode_attributes, field_attributes, reference_key, FieldModel};
use crate::text::{ascii_lower, decimal, lower_char};

verus! {

/// The record key that a field is stored under, if it is stored at all.
pub open spec fn stored_key(field: Seq<char>, value: FieldModel) -> Option<Seq<char>> {
    match value {
        FieldModel::Text(_) => Some(field),
        FieldModel::Reference(id) => if id == 0 {
            None
        } else {
            Some(reference_key(field))
        },
        _ => None,
    }
}

/// The text a field is stored as, if it is stored at all.
pub open spec fn stored_text(value: FieldModel) -> Option<Seq<char>> {
    match value {
        FieldModel::Text(t) => Some(t),
        FieldModel::Reference(id) => if id == 0 {
            None
        } else {
            Some(decimal(id))
        },
        _ => None,
    }
}

/// A schema whose fields cannot be mistaken for one another in a record: no two
/// fields share a name or a reference alias, and no name is another field's alias.
pub open spec fn distinct_record_keys(fields: Seq<(Seq<char>, FieldModel)>) -> bool {
    &&& forall|i: int, j: int|
        0 <= i < j < fields.len() ==> fields[i].0 != fields[j].0 && reference_key(fields[i].0)
            != reference_key(fields[j].0)
    &&& forall|i: int, j: int|
        0 <= i < fields.len() && 0 <= j < fields.len() ==> fields[i].0 != reference_key(
            fields[j].0,
        )
}

/// The record pairs that one field adds.
pub open spec fn field_pairs(field: Seq<char>, value: FieldModel) -> Seq<(Seq<char>, Seq<char>)> {
    match stored_key(field, value) {
        Some(k) => seq![(k, stored_text(value).unwrap())],
        None => Seq::empty(),
    }
}

pub open spec fn record_pairs(fields: Seq<(Seq<char>, FieldModel)>) -> Seq<
    (Seq<char>, Seq<char>),
>
    decreases fields.len(),
{
    if fields.len() == 0 {
        Seq::empty()
    } else {
        record_pairs(fields.drop_last()) + field_pairs(fields.last().0, fields.last().1)
    }
}

proof fn lemma_pairs_of_concat(a: Seq<Seq<char>>, b: Seq<Seq<char>>)
    requires
        a.len() % 2 == 0,
    ensures
        pairs_of(a + b) == pairs_of(a) + pairs_of(b),
    decreases a.len(),
{
    if a.len() == 0 {
        assert(a + b =~= b);
        assert(pairs_of(a) =~= Seq::empty());
        assert(pairs_of(a) + pairs_of(b) =~= pairs_of(b));
    } else {
        lemma_pairs_of_concat(a.skip(2), b);
        assert((a + b).skip(2) =~= a.skip(2) + b);
        assert((a + b)[0] == a[0]);
        assert((a + b)[1] == a[1]);
        assert(pairs_of(a + b) =~= pairs_of(a) + pairs_of(b));
    }
}

proof fn lemma_record_pairs(fields: Seq<(Seq<char>, FieldModel)>)
    ensures
        encode_attributes(fields).len() % 2 == 0,
        pairs_of(encode_attributes(fields)) == record_pairs(fields),
    decreases fields.len(),
{
    if fields.len() == 0 {
        assert(pairs_of(Seq::<Seq<char>>::empty()) =~= Seq::empty());
    } else {
        let init = fields.drop_last();
        let (name, value) = fields.last();
        lemma_record_pairs(init);
        let fa = field_attributes(name, value);
        lemma_pairs_of_concat(encode_attributes(init), fa);
        if fa.len() == 2 {
            assert(fa.skip(2) =~= Seq::<Seq<char>>::empty());
            assert(pairs_of(fa.skip(2)) == Seq::<(Seq<char>, Seq<char>)>::empty());
            assert(pairs_of(fa) =~= seq![(fa[0], fa[1])] + Seq::empty());
        } else {
            assert(pairs_of(fa) =~= Seq::empty());
        }
        assert(pairs_of(fa) =~= field_pairs(name, value));
    }
}

proof fn lemma_lookup_concat(a: Seq<(Seq<char>, Seq<char>)>, b: Seq<(Seq<char>, Seq<char>)>, k: Seq<char>)
    ensures
        lookup(a + b, k) == match lookup(a, k) {
            Some(v) => Some(v),
            None => lookup(b, k),
        },
    decreases a.len(),
{
    if a.len() == 0 {
        assert(a + b =~= b);
    } else {
        lemma_lookup_concat(a.skip(1), b, k);
        assert((a + b).skip(1) =~= a.skip(1) + b);
        assert((a + b)[0] == a[0]);
    }
}

proof fn lemma_lookup_field(field: Seq<char>, value: FieldModel, k: Seq<char>)
    ensures
        lookup(field_pairs(field, value), k) == if stored_key(field, value) == Some(k) {
            stored_text(value)
        } else {
            None
        },
{
    let p = field_pairs(field, value);
    if p.len() > 0 {
        assert(p.skip(1) =~= Seq::empty());
        assert(lookup(p.skip(1), k) is None);
        assert(p[0] == (stored_key(field, value).unwrap(), stored_text(value).unwrap()));
    } else {
        assert(lookup(p, k) is None);
    }
}

proof fn lemma_lookup_none(fields: Seq<(Seq<char>, FieldModel)>, k: Seq<char>)
    requires
        forall|j: int| 0 <= j < fields.len() ==> stored_key(fields[j].0, fields[j].1) != Some(k),
    ensures
        lookup(record_pairs(fields), k) is None,
    decreases fields.len(),
{
    if fields.len() > 0 {
        let init = fields.drop_last();
        assert forall|j: int| 0 <= j < init.len() implies stored_key(init[j].0, init[j].1) != Some(
            k,
        ) by {
            assert(init[j] == fields[j]);
        }
        lemma_lookup_none(init, k);
        lemma_lookup_concat(record_pairs(init), field_pairs(fields.last().0, fields.last().1), k);
        lemma_lookup_field(fields.last().0, fields.last().1, k);
    }
}

proof fn lemma_lookup_single(fields: Seq<(Seq<char>, FieldModel)>, i: int, k: Seq<char>)
    requires
        0 <= i < fields.len(),
        forall|j: int|
            0 <= j < fields.len() && j != i ==> stored_key(fields[j].0, fields[j].1) != Some(k),
    ensures
        lookup(record_pairs(fields), k) == if stored_key(fields[i].0, fields[i].1) == Some(k) {
            stored_text(fields[i].1)
        } else {
            None
        },
    decreases fields.len(),
{
    let init = fields.drop_last();
    let last = fields.len() - 1;
    lemma_lookup_concat(record_pairs(init), field_pairs(fields[last].0, fields[last].1), k);
    lemma_lookup_field(fields[last].0, fields[last].1, k);
    if i == last {
        assert forall|j: int| 0 <= j < init.len() implies stored_key(init[j].0, init[j].1) != Some(
            k,
        ) by {
            assert(init[j] == fields[j]);
        }
        lemma_lookup_none(init, k);
    } else {
        assert forall|j: int| 0 <= j < init.len() && j != i implies stored_key(
            init[j].0,
            init[j].1,
        ) != Some(k) by {
            assert(init[j] == fields[j]);
        }
        lemma_lookup_single(init, i, k);
        assert(init[i] == fields[i]);
    }
}

proof fn lemma_lower_concat(a: Seq<char>, b: Seq<char>)
    ensures
        ascii_lower(a + b) == ascii_lower(a) + ascii_lower(b),
{
    assert(ascii_lower(a + b) =~= ascii_lower(a) + ascii_lower(b));
}

/// The alias a decoder tries for a field is the key a reference field is stored under.
pub proof fn lemma_alias_is_reference_key(field: Seq<char>)
    ensures
        ascii_lower(field + "_id"@) == reference_key(field),
{
    lemma_lower_concat(field, "_id"@);
    reveal_strlit("_id");
    assert(ascii_lower("_id"@) =~= "_id"@) by {
        assert(lower_char('_') == '_');
        assert(lower_char('i') == 'i');
        assert(lower_char('d') == 'd');
    }
}

proof fn lemma_lower_len(s: Seq<char>)
    ensures
        ascii_lower(s).len() == s.len(),
{
}

/// Round trip: in the record of an object whose fields keep distinct record keys,
/// each field reads back as the text it was stored as; a reference reads back as
/// its id, and a field that is not stored (an absent optional, a reference to
/// nothing, a counter, a set, a list) reads back as missing.
pub proof fn lemma_round_trip(fields: Seq<(Seq<char>, FieldModel)>, i: int)
    requires
        distinct_record_keys(fields),
        0 <= i < fields.len(),
    ensures
        field_text(pairs_of(encode_attributes(fields)), fields[i].0) == stored_text(fields[i].1),
{
    lemma_record_pairs(fields);
    let name = fields[i].0;
    let record = record_pairs(fields);
    reveal_strlit("_id");
    lemma_lower_len(name);
    assert(reference_key(name).len() == name.len() + 3);
    assert forall|j: int|
        0 <= j < fields.len() && j != i implies stored_key(fields[j].0, fields[j].1) != Some(
        name,
    ) by {
        if j < i {
            assert(fields[j].0 != fields[i].0);
        } else {
            assert(fields[i].0 != fields[j].0);
        }
        assert(name != reference_key(fields[j].0));
    }
    lemma_lookup_single(fields, i, name);
    if stored_key(name, fields[i].1) != Some(name) {
        let alias = reference_key(name);
        lemma_alias_is_reference_key(name);
        assert forall|j: int|
            0 <= j < fields.len() && j != i implies stored_key(fields[j].0, fields[j].1) != Some(
            alias,
        ) by {
            assert(fields[j].0 != alias);
            if j < i {
                assert(reference_key(fields[j].0) != reference_key(fields[i].0));
            } else {
                assert(reference_key(fields[i].0) != reference_key(fields[j].0));
            }
        }
        lemma_lookup_single(fields, i, alias);
    }
}

/// Round trip through the store: what a load hands the decoder (the id merged in
/// under `id`, then the record) reads back each field as it was stored, for every
/// field other than the identity.
pub proof fn lemma_round_trip_loaded(fields: Seq<(Seq<char>, FieldModel)>, i: int, id: nat)
    requires
        distinct_record_keys(fields),
        0 <= i < fields.len(),
        forall|j: int| 0 <= j < fields.len() ==> fields[j].0 != "id"@ && reference_key(fields[j].0) != "id"@,
    ensures
        field_text(
            seq![("id"@, decimal(id))] + pairs_of(encode_attributes(fields)),
            fields[i].0,
        ) == stored_text(fields[i].1),
{
    let head = seq![("id"@, decimal(id))];
    let rec = pairs_of(encode_attributes(fields));
    let name = fields[i].0;
    lemma_round_trip(fields, i);
    lemma_alias_is_reference_key(name);
    lemma_lookup_concat(head, rec, name);
    lemma_lookup_concat(head, rec, reference_key(name));
    assert(head.skip(1) =~= Seq::<(Seq<char>, Seq<char>)>::empty());
    assert(lookup(head.skip(1), name) is None);
    assert(lookup(head.skip(1), reference_key(name)) is None);
    assert(fields[i].0 != "id"@ && reference_key(fields[i].0) != "id"@);
    assert(head[0].0 == "id"@);
    assert(lookup(head, name) is None);
    assert(lookup(head, reference_key(name)) is None);
}

} // verus!
