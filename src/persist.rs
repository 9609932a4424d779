//! Prepares the atomic save and delete operations, and reads their outcome.
//!
//! Before any store call, every field declared unique or indexed must be among
//! the encoded attributes; the operations' arguments are then written in the
//! binary map/array interchange format.
use vstd::prelude::*;
use crate::decoder::{attribute_pairs, find_key, lookup, pairs_of, pairs_view, DecoderError};
use crate::encoder::{features_of, Encoder, EncoderError, EncoderView};
use crate::keys::{record_key, record_key_of};
use crate::msgpack::{
    index_fits, list_fits, map_fits, msgpack_encode, msgpack_encode_index, msgpack_encode_list, msgpack_index_bytes,
    msgpack_list_bytes, msgpack_map_bytes,
};
use crate::text::{decimal, same_text, texts, usize_text};

verus! {

#[derive(Debug, PartialEq)]
pub enum OhmerError {
    /// The operation needs a persisted object, and the object's id is 0.
    NotSaved,
    RedisError(redis::RedisError),
    EncoderError(EncoderError),
    DecoderError,
    /// A field declared unique or indexed that the encoded object does not hold.
    UnknownIndex(String),
    /// Another object already holds this unique field's value.
    UniqueIndexViolation(String),
    /// A command name that is not valid UTF-8.
    CommandError(Vec<u8>),
}

impl From<EncoderError> for OhmerError {
    fn from(e: EncoderError) -> (r: OhmerError)
        ensures
            r == OhmerError::EncoderError(e),
    {
        OhmerError::EncoderError(e)
    }
}

impl vstd::std_specs::convert::FromSpecImpl<EncoderError> for OhmerError {
    open spec fn obeys_from_spec() -> bool {
        true
    }

    open spec fn from_spec(e: EncoderError) -> OhmerError {
        OhmerError::EncoderError(e)
    }
}

impl From<DecoderError> for OhmerError {
    fn from(e: DecoderError) -> (r: OhmerError)
        ensures
            r == OhmerError::DecoderError,
    {
        OhmerError::DecoderError
    }
}

impl vstd::std_specs::convert::FromSpecImpl<DecoderError> for OhmerError {
    open spec fn obeys_from_spec() -> bool {
        true
    }

    open spec fn from_spec(e: DecoderError) -> OhmerError {
        OhmerError::DecoderError
    }
}

impl From<redis::RedisError> for OhmerError {
    fn from(e: redis::RedisError) -> (r: OhmerError)
        ensures
            r == OhmerError::RedisError(e),
    {
        OhmerError::RedisError(e)
    }
}

impl vstd::std_specs::convert::FromSpecImpl<redis::RedisError> for OhmerError {
    open spec fn obeys_from_spec() -> bool {
        true
    }

    open spec fn from_spec(e: redis::RedisError) -> OhmerError {
        OhmerError::RedisError(e)
    }
}

/// `e` is `UnknownIndex` of the field `f`.
pub open spec fn is_unknown_index(e: OhmerError, f: Seq<char>) -> bool {
    match e {
        OhmerError::UnknownIndex(g) => g@ == f,
        _ => false,
    }
}

/// The unique entries (field, value) of a record, one per declared field in declared
/// order; the first declared field that the record lacks is the error.
pub open spec fn unique_entries(ps: Seq<(Seq<char>, Seq<char>)>, fields: Seq<Seq<char>>) -> Result<
    Seq<(Seq<char>, Seq<char>)>,
    Seq<char>,
>
    decreases fields.len(),
{
    if fields.len() == 0 {
        Ok(Seq::empty())
    } else {
        match unique_entries(ps, fields.drop_last()) {
            Err(f) => Err(f),
            Ok(prev) => {
                let f = fields.last();
                if fields.drop_last().contains(f) {
                    Ok(prev)
                } else {
                    match lookup(ps, f) {
                        Some(v) => Ok(prev.push((f, v))),
                        None => Err(f),
                    }
                }
            },
        }
    }
}

/// A record key holds the indexed field `f`: the field itself, or its reference alias.
pub open spec fn answers(k: Seq<char>, f: Seq<char>) -> bool {
    k == f || k == f + "_id"@
}

/// The first record pair that holds the indexed field `f`.
pub open spec fn first_answer(ps: Seq<(Seq<char>, Seq<char>)>, f: Seq<char>) -> Option<
    (Seq<char>, Seq<char>),
>
    decreases ps.len(),
{
    if ps.len() == 0 {
        None
    } else if answers(ps[0].0, f) {
        Some(ps[0])
    } else {
        first_answer(ps.skip(1), f)
    }
}

/// The index entries (record key, [value]) of a record, one per declared field in
/// declared order; the first declared field that the record lacks is the error.
pub open spec fn index_entries(ps: Seq<(Seq<char>, Seq<char>)>, fields: Seq<Seq<char>>) -> Result<
    Seq<(Seq<char>, Seq<Seq<char>>)>,
    Seq<char>,
>
    decreases fields.len(),
{
    if fields.len() == 0 {
        Ok(Seq::empty())
    } else {
        match index_entries(ps, fields.drop_last()) {
            Err(f) => Err(f),
            Ok(prev) => {
                let f = fields.last();
                if fields.drop_last().contains(f) {
                    Ok(prev)
                } else {
                    match first_answer(ps, f) {
                        Some(p) => Ok(prev.push((p.0, seq![p.1]))),
                        None => Err(f),
                    }
                }
            },
        }
    }
}

pub open spec fn index_view(v: Seq<(String, Vec<String>)>) -> Seq<(Seq<char>, Seq<Seq<char>>)> {
    v.map_values(|p: (String, Vec<String>)| (p.0@, texts(p.1@)))
}

proof fn lemma_unique_err_extends(ps: Seq<(Seq<char>, Seq<char>)>, fields: Seq<Seq<char>>, k: int)
    requires
        0 <= k <= fields.len(),
        unique_entries(ps, fields.take(k)) is Err,
    ensures
        unique_entries(ps, fields) == unique_entries(ps, fields.take(k)),
    decreases fields.len() - k,
{
    if k < fields.len() {
        assert(fields.take(k + 1).drop_last() =~= fields.take(k));
        lemma_unique_err_extends(ps, fields, k + 1);
    } else {
        assert(fields.take(k) =~= fields);
    }
}

proof fn lemma_index_err_extends(ps: Seq<(Seq<char>, Seq<char>)>, fields: Seq<Seq<char>>, k: int)
    requires
        0 <= k <= fields.len(),
        index_entries(ps, fields.take(k)) is Err,
    ensures
        index_entries(ps, fields) == index_entries(ps, fields.take(k)),
    decreases fields.len() - k,
{
    if k < fields.len() {
        assert(fields.take(k + 1).drop_last() =~= fields.take(k));
        lemma_index_err_extends(ps, fields, k + 1);
    } else {
        assert(fields.take(k) =~= fields);
    }
}

/// Whether `v[i]` already occurs among the entries before it.
fn listed_before(v: &Vec<String>, i: usize) -> (r: bool)
    requires
        i < v@.len(),
    ensures
        r == texts(v@).take(i as int).contains(v@[i as int]@),
{
    let ghost t = texts(v@);
    let mut j: usize = 0;
    while j < i
        invariant
            i < v@.len(),
            t == texts(v@),
            j <= i,
            forall|m: int| 0 <= m < j ==> t[m] != t[i as int],
        decreases i - j,
    {
        if same_text(v[j].as_str(), v[i].as_str()) {
            assert(t.take(i as int)[j as int] == t[i as int]);
            return true;
        }
        j = j + 1;
    }
    assert forall|m: int| 0 <= m < t.take(i as int).len() implies t.take(i as int)[m] != t[i as int] by {
        assert(t.take(i as int)[m] == t[m]);
    }
    false
}

/// The position of the first pair that holds the indexed field `f`.
fn find_answer(pairs: &Vec<(String, String)>, f: &str) -> (r: Option<usize>)
    ensures
        match r {
            Some(i) => i < pairs@.len() && first_answer(pairs_view(pairs@), f@) == Some(
                pairs_view(pairs@)[i as int],
            ),
            None => first_answer(pairs_view(pairs@), f@) is None,
        },
{
    let ghost ps = pairs_view(pairs@);
    let mut alias = String::from_str(f);
    alias.append("_id");
    let n = pairs.len();
    let mut i: usize = 0;
    assert(ps.skip(0) =~= ps);
    while i < n
        invariant
            n == ps.len(),
            ps == pairs_view(pairs@),
            alias@ == f@ + "_id"@,
            i <= n,
            first_answer(ps, f@) == first_answer(ps.skip(i as int), f@),
        decreases n - i,
    {
        assert(ps.skip(i as int)[0] == ps[i as int]);
        assert(ps.skip(i as int).skip(1) =~= ps.skip(i + 1));
        let k = pairs[i].0.as_str();
        if same_text(k, f) || same_text(k, alias.as_str()) {
            return Some(i);
        }
        i = i + 1;
    }
    None
}

/// The unique and index entries of an encoded object, checked against the fields
/// the schema declares unique and indexed. A declared field that the attributes do
/// not hold fails as `UnknownIndex`, unique fields first, each list in declared order.
pub fn uniques_indices(
    attributes: &Vec<String>,
    unique_fields: &Vec<String>,
    index_fields: &Vec<String>,
) -> (r: Result<(Vec<(String, String)>, Vec<(String, Vec<String>)>), OhmerError>)
    ensures
        ({
            let ps = pairs_of(texts(attributes@));
            match unique_entries(ps, texts(unique_fields@)) {
                Err(f) => r matches Err(e) && is_unknown_index(e, f),
                Ok(u) => match index_entries(ps, texts(index_fields@)) {
                    Err(f) => r matches Err(e) && is_unknown_index(e, f),
                    Ok(x) => r matches Ok((a, b)) && pairs_view(a@) == u && index_view(b@) == x,
                },
            }
        }),
{
    let pairs = attribute_pairs(attributes);
    let ghost ps = pairs_of(texts(attributes@));
    let ghost uf = texts(unique_fields@);
    let ghost xf = texts(index_fields@);
    let mut uniques: Vec<(String, String)> = Vec::new();
    let mut i: usize = 0;
    assert(uf.take(0) =~= Seq::empty());
    assert(pairs_view(uniques@) =~= Seq::empty());
    while i < unique_fields.len()
        invariant
            ps == pairs_view(pairs@),
            ps == pairs_of(texts(attributes@)),
            uf == texts(unique_fields@),
            i <= uf.len(),
            unique_entries(ps, uf.take(i as int)) == Ok::<_, Seq<char>>(pairs_view(uniques@)),
        decreases unique_fields.len() - i,
    {
        assert(uf.take(i + 1).drop_last() =~= uf.take(i as int));
        assert(uf.take(i + 1).last() == uf[i as int]);
        assert(uf[i as int] == unique_fields@[i as int]@);
        if !listed_before(unique_fields, i) {
            match find_key(&pairs, unique_fields[i].as_str()) {
                Some(j) => {
                    assert(unique_entries(ps, uf.take(i + 1)) == Ok::<_, Seq<char>>(
                        pairs_view(uniques@).push((uf[i as int], ps[j as int].1)),
                    ));
                    let ghost before = uniques@;
                    uniques.push((unique_fields[i].clone(), pairs[j].1.clone()));
                    assert(pairs_view(uniques@) =~= pairs_view(before).push(
                        (uf[i as int], ps[j as int].1),
                    ));
                },
                None => {
                    assert(unique_entries(ps, uf.take(i + 1)) == Err::<
                        Seq<(Seq<char>, Seq<char>)>,
                        Seq<char>,
                    >(uf[i as int]));
                    proof {
                        lemma_unique_err_extends(ps, uf, i as int + 1);
                    }
                    let f = unique_fields[i].clone();
                    return Err(OhmerError::UnknownIndex(f));
                },
            }
        }
        i = i + 1;
    }
    assert(uf.take(i as int) =~= uf);
    let mut indices: Vec<(String, Vec<String>)> = Vec::new();
    let mut i: usize = 0;
    assert(xf.take(0) =~= Seq::empty());
    assert(index_view(indices@) =~= Seq::empty());
    while i < index_fields.len()
        invariant
            ps == pairs_view(pairs@),
            ps == pairs_of(texts(attributes@)),
            uf == texts(unique_fields@),
            xf == texts(index_fields@),
            unique_entries(ps, uf) == Ok::<_, Seq<char>>(pairs_view(uniques@)),
            i <= xf.len(),
            index_entries(ps, xf.take(i as int)) == Ok::<_, Seq<char>>(index_view(indices@)),
        decreases index_fields.len() - i,
    {
        assert(xf.take(i + 1).drop_last() =~= xf.take(i as int));
        assert(xf.take(i + 1).last() == xf[i as int]);
        assert(xf[i as int] == index_fields@[i as int]@);
        if !listed_before(index_fields, i) {
            match find_answer(&pairs, index_fields[i].as_str()) {
                Some(j) => {
                    assert(index_entries(ps, xf.take(i + 1)) == Ok::<_, Seq<char>>(
                        index_view(indices@).push((ps[j as int].0, seq![ps[j as int].1])),
                    ));
                    let mut values: Vec<String> = Vec::new();
                    values.push(pairs[j].1.clone());
                    assert(texts(values@) =~= seq![ps[j as int].1]);
                    let ghost before = indices@;
                    indices.push((pairs[j].0.clone(), values));
                    assert(index_view(indices@) =~= index_view(before).push(
                        (ps[j as int].0, seq![ps[j as int].1]),
                    ));
                },
                None => {
                    assert(index_entries(ps, xf.take(i + 1)) == Err::<
                        Seq<(Seq<char>, Seq<Seq<char>>)>,
                        Seq<char>,
                    >(xf[i as int]));
                    proof {
                        lemma_index_err_extends(ps, xf, i as int + 1);
                    }
                    return Err(OhmerError::UnknownIndex(index_fields[i].clone()));
                },
            }
        }
        i = i + 1;
    }
    assert(xf.take(i as int) =~= xf);
    Ok((uniques, indices))
}

/// The arguments of the atomic save, each in the interchange format.
pub struct SaveArgs {
    /// The class name, and the id unless the object is transient.
    pub features: Vec<u8>,
    /// Alternating field names and values of the record.
    pub attributes: Vec<u8>,
    /// Record key to values, for each indexed field.
    pub indices: Vec<u8>,
    /// Field to value, for each unique field.
    pub uniques: Vec<u8>,
}

/// The arguments of the atomic delete, each in the interchange format.
pub struct DeleteArgs {
    /// `key`, `id` and `name` of the object.
    pub model: Vec<u8>,
    /// Field to value, for each unique field.
    pub uniques: Vec<u8>,
    /// The names of the object's set, counter and list properties.
    pub ancillary: Vec<u8>,
}

/// The object description the delete operation receives.
pub open spec fn delete_model(class: Seq<char>, id: nat) -> Seq<(Seq<char>, Seq<char>)> {
    seq![("key"@, record_key_of(class, id)), ("id"@, decimal(id)), ("name"@, class)]
}

/// The format can carry every argument of a save.
pub open spec fn save_fits(
    e: EncoderView,
    u: Seq<(Seq<char>, Seq<char>)>,
    x: Seq<(Seq<char>, Seq<Seq<char>>)>,
) -> bool {
    &&& map_fits(features_of(e))
    &&& list_fits(e.attributes)
    &&& index_fits(x)
    &&& map_fits(u)
}

/// `e` is the error of an argument that could not be written.
pub open spec fn is_write_failure(e: OhmerError) -> bool {
    e == OhmerError::EncoderError(EncoderError::MsgPackError)
}

fn encoded(r: Result<Vec<u8>, EncoderError>) -> (o: Result<Vec<u8>, OhmerError>)
    ensures
        match r {
            Ok(b) => o == Ok::<Vec<u8>, OhmerError>(b),
            Err(e) => o == Err::<Vec<u8>, OhmerError>(OhmerError::EncoderError(e)),
        },
{
    match r {
        Ok(b) => Ok(b),
        Err(e) => Err(OhmerError::EncoderError(e)),
    }
}

/// Checks an encoded object against its schema and writes the save's arguments.
/// Nothing reaches the store when a declared unique or indexed field is missing.
pub fn save_args(enc: &Encoder, unique_fields: &Vec<String>, index_fields: &Vec<String>) -> (r:
    Result<SaveArgs, OhmerError>)
    ensures
        ({
            let ps = pairs_of(enc@.attributes);
            match unique_entries(ps, texts(unique_fields@)) {
                Err(f) => r matches Err(e) && is_unknown_index(e, f),
                Ok(u) => match index_entries(ps, texts(index_fields@)) {
                    Err(f) => r matches Err(e) && is_unknown_index(e, f),
                    Ok(x) => (r is Ok <==> save_fits(enc@, u, x)) && match r {
                        Ok(a) => a.features@ == msgpack_map_bytes(features_of(enc@))
                            && a.attributes@ == msgpack_list_bytes(enc@.attributes)
                            && a.indices@ == msgpack_index_bytes(x) && a.uniques@
                            == msgpack_map_bytes(u),
                        Err(e) => is_write_failure(e),
                    },
                },
            }
        }),
{
    let (uniques, indices) = match uniques_indices(&enc.attributes, unique_fields, index_fields) {
        Ok(p) => p,
        Err(e) => return Err(e),
    };
    let features = encoded(msgpack_encode(&enc.features()))?;
    let attributes = encoded(msgpack_encode_list(&enc.attributes))?;
    let indices = encoded(msgpack_encode_index(&indices))?;
    let uniques = encoded(msgpack_encode(&uniques))?;
    Ok(SaveArgs { features, attributes, indices, uniques })
}

/// Writes the delete's arguments for a persisted object: its description, its unique
/// entries, and the names of its set, counter and list properties, whose keys go too.
pub fn delete_args(enc: &Encoder, unique_fields: &Vec<String>) -> (r: Result<DeleteArgs, OhmerError>)
    ensures
        enc@.id == 0 ==> r matches Err(OhmerError::NotSaved),
        enc@.id != 0 && enc@.name is None ==> r matches Err(
            OhmerError::EncoderError(EncoderError::MissingField),
        ),
        enc@.id != 0 && enc@.name is Some ==> match unique_entries(
            pairs_of(enc@.attributes),
            texts(unique_fields@),
        ) {
            Err(f) => r matches Err(e) && is_unknown_index(e, f),
            Ok(u) => (r is Ok <==> map_fits(delete_model(enc@.name.unwrap(), enc@.id)) && map_fits(u)
                && list_fits(enc@.sets + enc@.counters + enc@.lists)) && match r {
                Ok(a) => a.model@ == msgpack_map_bytes(
                    delete_model(enc@.name.unwrap(), enc@.id),
                ) && a.uniques@ == msgpack_map_bytes(u) && a.ancillary@ == msgpack_list_bytes(
                    enc@.sets + enc@.counters + enc@.lists,
                ),
                Err(e) => is_write_failure(e),
            },
        },
{
    if enc.id == 0 {
        return Err(OhmerError::NotSaved);
    }
    let name = match &enc.name {
        Some(n) => n,
        None => return Err(OhmerError::EncoderError(EncoderError::MissingField)),
    };
    let no_indices: Vec<String> = Vec::new();
    assert(texts(no_indices@) =~= Seq::empty());
    let (uniques, _) = match uniques_indices(&enc.attributes, unique_fields, &no_indices) {
        Ok(p) => p,
        Err(e) => return Err(e),
    };
    let mut model: Vec<(String, String)> = Vec::new();
    model.push((String::from_str("key"), record_key(name.as_str(), enc.id)));
    model.push((String::from_str("id"), usize_text(enc.id)));
    model.push((String::from_str("name"), name.clone()));
    assert(pairs_view(model@) =~= delete_model(name@, enc.id as nat));
    let mut ancillary: Vec<String> = Vec::new();
    let mut i: usize = 0;
    while i < enc.sets.len()
        invariant
            i <= enc.sets@.len(),
            texts(ancillary@) == texts(enc.sets@).take(i as int),
        decreases enc.sets.len() - i,
    {
        let ghost before = ancillary@;
        ancillary.push(enc.sets[i].clone());
        assert(texts(ancillary@) =~= texts(before).push(enc.sets@[i as int]@));
        assert(texts(enc.sets@).take(i + 1) =~= texts(enc.sets@).take(i as int).push(
            enc.sets@[i as int]@,
        ));
        assert(texts(ancillary@) =~= texts(enc.sets@).take(i + 1));
        i = i + 1;
    }
    assert(texts(enc.sets@).take(i as int) =~= texts(enc.sets@));
    let mut i: usize = 0;
    while i < enc.counters.len()
        invariant
            i <= enc.counters@.len(),
            texts(ancillary@) == texts(enc.sets@) + texts(enc.counters@).take(i as int),
        decreases enc.counters.len() - i,
    {
        let ghost before = ancillary@;
        ancillary.push(enc.counters[i].clone());
        assert(texts(ancillary@) =~= texts(before).push(enc.counters@[i as int]@));
        assert(texts(enc.counters@).take(i + 1) =~= texts(enc.counters@).take(i as int).push(
            enc.counters@[i as int]@,
        ));
        assert(texts(ancillary@) =~= texts(enc.sets@) + texts(enc.counters@).take(i + 1));
        i = i + 1;
    }
    assert(texts(enc.counters@).take(i as int) =~= texts(enc.counters@));
    let mut i: usize = 0;
    while i < enc.lists.len()
        invariant
            i <= enc.lists@.len(),
            texts(ancillary@) == texts(enc.sets@) + texts(enc.counters@) + texts(enc.lists@).take(
                i as int,
            ),
        decreases enc.lists.len() - i,
    {
        let ghost before = ancillary@;
        ancillary.push(enc.lists[i].clone());
        assert(texts(ancillary@) =~= texts(before).push(enc.lists@[i as int]@));
        assert(texts(enc.lists@).take(i + 1) =~= texts(enc.lists@).take(i as int).push(
            enc.lists@[i as int]@,
        ));
        assert(texts(ancillary@) =~= texts(enc.sets@) + texts(enc.counters@) + texts(
            enc.lists@,
        ).take(i + 1));
        i = i + 1;
    }
    assert(texts(enc.lists@).take(i as int) =~= texts(enc.lists@));
    let model = encoded(msgpack_encode(&model))?;
    let uniques = encoded(msgpack_encode(&uniques))?;
    let ancillary = encoded(msgpack_encode_list(&ancillary))?;
    Ok(DeleteArgs { model, uniques, ancillary })
}

/// `a` occurs in `b` as a run of consecutive characters.
pub open spec fn is_substring(a: Seq<char>, b: Seq<char>) -> bool {
    exists|i: int| 0 <= i && i + a.len() <= b.len() && #[trigger] b.subrange(i, i + a.len()) == a
}

/// The text of the first group of the leftmost match of `pattern` in `text`; nothing
/// when the pattern does not compile, does not match, or its first group took no part.
pub uninterp spec fn first_capture(pattern: Seq<char>, text: Seq<char>) -> Option<Seq<char>>;

/// The pattern of a store-side unique violation; its group is the field's name.
pub open spec fn violation_pattern() -> Seq<char> {
    "UniqueIndexViolation: (\\w+)"@
}

/// Relies on `regex::Regex::new` and `regex::Regex::captures`: the first group of the
/// leftmost match, which is a piece of the haystack; the result depends on the pattern
/// and the text alone.
#[verifier::external_body]
fn capture(pattern: &str, text: &str) -> (r: Option<String>)
    ensures
        match r {
            Some(g) => first_capture(pattern@, text@) == Some(g@),
            None => first_capture(pattern@, text@) is None,
        },
        r matches Some(g) ==> is_substring(g@, text@),
{
    regex::Regex::new(pattern).ok().and_then(|re| re.captures(text)).and_then(|c| c.get(1)).map(
        |m| m.as_str().to_string(),
    )
}

/// The unique field named by a store-side `UniqueIndexViolation: <field>` failure: the
/// first capture of the violation pattern in the error text.
pub fn unique_violation(err_text: &str) -> (r: Option<String>)
    ensures
        match r {
            Some(f) => first_capture(violation_pattern(), err_text@) == Some(f@),
            None => first_capture(violation_pattern(), err_text@) is None,
        },
        r matches Some(f) ==> is_substring(f@, err_text@),
{
    capture("UniqueIndexViolation: (\\w+)", err_text)
}

/// The error of a failed save: a unique violation when the failure names one,
/// otherwise the store's own error.
pub fn save_failure(violation: Option<String>, store_error: redis::RedisError) -> (r: OhmerError)
    ensures
        match violation {
            Some(f) => r == OhmerError::UniqueIndexViolation(f),
            None => r == OhmerError::RedisError(store_error),
        },
{
    match violation {
        Some(f) => OhmerError::UniqueIndexViolation(f),
        None => OhmerError::RedisError(store_error),
    }
}

} // verus!
