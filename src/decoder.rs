//! Rebuilds an object from the field-name to text map of its record.
//!
//! An object reads each of its fields with the reader of that field's kind.
//! A field missing from the map is also looked up under its reference alias
//! `{field}_id`, so a record may hold either form.
use vstd::prelude::*;
use crate::text::{
    ascii_lower, parse_i64, parse_u64, parsed_signed, parsed_unsigned, same_text, lowercase,
    texts,
};

verus! {

#[derive(Debug)]
pub enum DecoderError {
    /// A shape outside the protocol: a sequence, a map, an enum variant or a tuple.
    NotImplementedYet,
    /// The kind that was expected, and the text found instead (`None` when the field
    /// was not there).
    ExpectedError(String, String),
    RedisError(redis::RedisError),
    ApplicationError(String),
}

/// `e` is an `ExpectedError` of the given kind and actual text.
pub open spec fn is_expected(e: DecoderError, kind: Seq<char>, actual: Seq<char>) -> bool {
    match e {
        DecoderError::ExpectedError(k, a) => k@ == kind && a@ == actual,
        _ => false,
    }
}

/// The views of a sequence of string pairs.
pub open spec fn pairs_view(v: Seq<(String, String)>) -> Seq<(Seq<char>, Seq<char>)> {
    v.map_values(|p: (String, String)| (p.0@, p.1@))
}

/// Alternating names and values, as pairs; a trailing odd token is dropped.
pub open spec fn pairs_of(s: Seq<Seq<char>>) -> Seq<(Seq<char>, Seq<char>)>
    decreases s.len(),
{
    if s.len() < 2 {
        Seq::empty()
    } else {
        seq![(s[0], s[1])] + pairs_of(s.skip(2))
    }
}

/// The value of the first pair whose name is `k`.
pub open spec fn lookup(props: Seq<(Seq<char>, Seq<char>)>, k: Seq<char>) -> Option<Seq<char>>
    decreases props.len(),
{
    if props.len() == 0 {
        None
    } else if props[0].0 == k {
        Some(props[0].1)
    } else {
        lookup(props.skip(1), k)
    }
}

/// The text stored for a field: under its own name, or else under `{field}_id` in
/// lower case.
pub open spec fn field_text(props: Seq<(Seq<char>, Seq<char>)>, field: Seq<char>) -> Option<
    Seq<char>,
> {
    match lookup(props, field) {
        Some(v) => Some(v),
        None => lookup(props, ascii_lower(field + "_id"@)),
    }
}

/// Turns alternating names and values into pairs.
pub fn attribute_pairs(attributes: &Vec<String>) -> (r: Vec<(String, String)>)
    ensures
        pairs_view(r@) == pairs_of(texts(attributes@)),
{
    let mut r: Vec<(String, String)> = Vec::new();
    let mut i: usize = 0;
    let n = attributes.len();
    assert(texts(attributes@).skip(0) =~= texts(attributes@));
    assert(pairs_view(r@) =~= Seq::empty());
    while i + 1 < n
        invariant
            n == attributes@.len(),
            i % 2 == 0,
            i <= n,
            pairs_view(r@) + pairs_of(texts(attributes@).skip(i as int)) == pairs_of(
                texts(attributes@),
            ),
        decreases n - i,
    {
        let ghost before = r@;
        let ghost rest = texts(attributes@).skip(i as int);
        assert(rest.skip(2) =~= texts(attributes@).skip(i + 2));
        r.push((attributes[i].clone(), attributes[i + 1].clone()));
        assert(pairs_view(r@) =~= pairs_view(before).push((rest[0], rest[1])));
        assert(pairs_view(r@) + pairs_of(texts(attributes@).skip(i + 2)) =~= pairs_view(before)
            + pairs_of(rest));
        i = i + 2;
    }
    assert(pairs_of(texts(attributes@).skip(i as int)) =~= Seq::empty());
    assert(pairs_view(r@) =~= pairs_of(texts(attributes@)));
    r
}

/// The position of the first pair named `k`.
pub fn find_key(pairs: &Vec<(String, String)>, k: &str) -> (r: Option<usize>)
    ensures
        match r {
            Some(i) => i < pairs@.len() && pairs_view(pairs@)[i as int].0 == k@ && lookup(
                pairs_view(pairs@),
                k@,
            ) == Some(pairs_view(pairs@)[i as int].1),
            None => lookup(pairs_view(pairs@), k@) is None,
        },
{
    let ghost ps = pairs_view(pairs@);
    let n = pairs.len();
    let mut i: usize = 0;
    assert(ps.skip(0) =~= ps);
    while i < n
        invariant
            n == ps.len(),
            ps == pairs_view(pairs@),
            i <= n,
            lookup(ps, k@) == lookup(ps.skip(i as int), k@),
        decreases n - i,
    {
        assert(ps.skip(i as int)[0] == ps[i as int]);
        assert(ps.skip(i as int).skip(1) =~= ps.skip(i + 1));
        if same_text(pairs[i].0.as_str(), k) {
            return Some(i);
        }
        i = i + 1;
    }
    None
}

/// Reads fields out of one record.
pub struct Decoder {
    properties: Vec<(String, String)>,
}

impl View for Decoder {
    type V = Seq<(Seq<char>, Seq<char>)>;

    closed spec fn view(&self) -> Seq<(Seq<char>, Seq<char>)> {
        pairs_view(self.properties@)
    }
}

impl Decoder {
    pub fn new(properties: Vec<(String, String)>) -> (r: Decoder)
        ensures
            r@ == pairs_view(properties@),
    {
        Decoder { properties }
    }

    /// The position of the first property named `k`.
    fn position(&self, k: &str) -> (r: Option<usize>)
        ensures
            match r {
                Some(i) => i < self@.len() && self@[i as int].0 == k@ && lookup(self@, k@) == Some(
                    self@[i as int].1,
                ),
                None => lookup(self@, k@) is None,
            },
    {
        find_key(&self.properties, k)
    }

    /// The text stored for `field`, under its own name or its reference alias.
    pub fn field_value(&self, field: &str) -> (r: Option<String>)
        ensures
            match r {
                Some(t) => field_text(self@, field@) == Some(t@),
                None => field_text(self@, field@) is None,
            },
    {
        match self.position(field) {
            Some(i) => Some(self.properties[i].1.clone()),
            None => {
                let mut alias = String::from_str(field);
                alias.append("_id");
                let alias = lowercase(alias.as_str());
                match self.position(alias.as_str()) {
                    Some(i) => Some(self.properties[i].1.clone()),
                    None => None,
                }
            },
        }
    }

    /// Whether an optional field is present; nothing is consumed.
    pub fn read_option(&self, field: &str) -> (r: bool)
        ensures
            r == field_text(self@, field@) is Some,
    {
        self.field_value(field).is_some()
    }

    pub fn read_str(&self, field: &str) -> (r: Result<String, DecoderError>)
        ensures
            match field_text(self@, field@) {
                Some(t) => r matches Ok(s) && s@ == t,
                None => r matches Err(e) && is_expected(e, "String"@, "None"@),
            },
    {
        match self.field_value(field) {
            Some(t) => Ok(t),
            None => Err(
                DecoderError::ExpectedError(String::from_str("String"), String::from_str("None")),
            ),
        }
    }

    /// An unsigned number no larger than `max`.
    pub fn read_unsigned(&self, field: &str, max: u64) -> (r: Result<u64, DecoderError>)
        ensures
            match field_text(self@, field@) {
                Some(t) => match parsed_unsigned(t, max as nat) {
                    Some(v) => r == Ok::<u64, DecoderError>(v as u64),
                    None => r matches Err(e) && is_expected(e, "Number"@, t),
                },
                None => r matches Err(e) && is_expected(e, "Number"@, "None"@),
            },
    {
        match self.field_value(field) {
            Some(t) => match parse_u64(t.as_str()) {
                Some(v) => {
                    if v <= max {
                        Ok(v)
                    } else {
                        Err(DecoderError::ExpectedError(String::from_str("Number"), t))
                    }
                },
                None => {
                    assert(parsed_unsigned(t@, max as nat) is None) by {
                        if parsed_unsigned(t@, max as nat) is Some {
                            assert(parsed_unsigned(t@, u64::MAX as nat) is Some);
                        }
                    }
                    Err(DecoderError::ExpectedError(String::from_str("Number"), t))
                },
            },
            None => Err(
                DecoderError::ExpectedError(String::from_str("Number"), String::from_str("None")),
            ),
        }
    }

    /// A signed number within `min ..= max`.
    pub fn read_signed(&self, field: &str, min: i64, max: i64) -> (r: Result<i64, DecoderError>)
        ensures
            match field_text(self@, field@) {
                Some(t) => match parsed_signed(t, min as int, max as int) {
                    Some(v) => r == Ok::<i64, DecoderError>(v as i64),
                    None => r matches Err(e) && is_expected(e, "Number"@, t),
                },
                None => r matches Err(e) && is_expected(e, "Number"@, "None"@),
            },
    {
        match self.field_value(field) {
            Some(t) => match parse_i64(t.as_str()) {
                Some(v) => {
                    if min <= v && v <= max {
                        Ok(v)
                    } else {
                        Err(DecoderError::ExpectedError(String::from_str("Number"), t))
                    }
                },
                None => {
                    assert(parsed_signed(t@, min as int, max as int) is None) by {
                        if parsed_signed(t@, min as int, max as int) is Some {
                            assert(parsed_signed(t@, i64::MIN as int, i64::MAX as int) is Some);
                        }
                    }
                    Err(DecoderError::ExpectedError(String::from_str("Number"), t))
                },
            },
            None => Err(
                DecoderError::ExpectedError(String::from_str("Number"), String::from_str("None")),
            ),
        }
    }

    pub fn read_u8(&self, field: &str) -> (r: Result<u8, DecoderError>)
        ensures
            match field_text(self@, field@) {
                Some(t) => match parsed_unsigned(t, u8::MAX as nat) {
                    Some(v) => r == Ok::<u8, DecoderError>(v as u8),
                    None => r matches Err(e) && is_expected(e, "Number"@, t),
                },
                None => r matches Err(e) && is_expected(e, "Number"@, "None"@),
            },
    {
        match self.read_unsigned(field, u8::MAX as u64) {
            Ok(v) => Ok(v as u8),
            Err(e) => Err(e),
        }
    }

    pub fn read_u16(&self, field: &str) -> (r: Result<u16, DecoderError>)
        ensures
            match field_text(self@, field@) {
                Some(t) => match parsed_unsigned(t, u16::MAX as nat) {
                    Some(v) => r == Ok::<u16, DecoderError>(v as u16),
                    None => r matches Err(e) && is_expected(e, "Number"@, t),
                },
                None => r matches Err(e) && is_expected(e, "Number"@, "None"@),
            },
    {
        match self.read_unsigned(field, u16::MAX as u64) {
            Ok(v) => Ok(v as u16),
            Err(e) => Err(e),
        }
    }

    pub fn read_u32(&self, field: &str) -> (r: Result<u32, DecoderError>)
        ensures
            match field_text(self@, field@) {
                Some(t) => match parsed_unsigned(t, u32::MAX as nat) {
                    Some(v) => r == Ok::<u32, DecoderError>(v as u32),
                    None => r matches Err(e) && is_expected(e, "Number"@, t),
                },
                None => r matches Err(e) && is_expected(e, "Number"@, "None"@),
            },
    {
        match self.read_unsigned(field, u32::MAX as u64) {
            Ok(v) => Ok(v as u32),
            Err(e) => Err(e),
        }
    }

    pub fn read_u64(&self, field: &str) -> (r: Result<u64, DecoderError>)
        ensures
            match field_text(self@, field@) {
                Some(t) => match parsed_unsigned(t, u64::MAX as nat) {
                    Some(v) => r == Ok::<u64, DecoderError>(v as u64),
                    None => r matches Err(e) && is_expected(e, "Number"@, t),
                },
                None => r matches Err(e) && is_expected(e, "Number"@, "None"@),
            },
    {
        self.read_unsigned(field, u64::MAX)
    }

    pub fn read_usize(&self, field: &str) -> (r: Result<usize, DecoderError>)
        ensures
            match field_text(self@, field@) {
                Some(t) => match parsed_unsigned(t, usize::MAX as nat) {
                    Some(v) => r == Ok::<usize, DecoderError>(v as usize),
                    None => r matches Err(e) && is_expected(e, "Number"@, t),
                },
                None => r matches Err(e) && is_expected(e, "Number"@, "None"@),
            },
    {
        match self.read_unsigned(field, usize::MAX as u64) {
            Ok(v) => Ok(v as usize),
            Err(e) => Err(e),
        }
    }

    /// The id of a reference field, stored under the field or its `{field}_id` alias.
    pub fn read_reference(&self, field: &str) -> (r: Result<usize, DecoderError>)
        ensures
            match field_text(self@, field@) {
                Some(t) => match parsed_unsigned(t, usize::MAX as nat) {
                    Some(v) => r == Ok::<usize, DecoderError>(v as usize),
                    None => r matches Err(e) && is_expected(e, "Number"@, t),
                },
                None => r matches Err(e) && is_expected(e, "Number"@, "None"@),
            },
    {
        self.read_usize(field)
    }

    pub fn read_i8(&self, field: &str) -> (r: Result<i8, DecoderError>)
        ensures
            match field_text(self@, field@) {
                Some(t) => match parsed_signed(t, i8::MIN as int, i8::MAX as int) {
                    Some(v) => r == Ok::<i8, DecoderError>(v as i8),
                    None => r matches Err(e) && is_expected(e, "Number"@, t),
                },
                None => r matches Err(e) && is_expected(e, "Number"@, "None"@),
            },
    {
        match self.read_signed(field, i8::MIN as i64, i8::MAX as i64) {
            Ok(v) => Ok(v as i8),
            Err(e) => Err(e),
        }
    }

    pub fn read_i16(&self, field: &str) -> (r: Result<i16, DecoderError>)
        ensures
            match field_text(self@, field@) {
                Some(t) => match parsed_signed(t, i16::MIN as int, i16::MAX as int) {
                    Some(v) => r == Ok::<i16, DecoderError>(v as i16),
                    None => r matches Err(e) && is_expected(e, "Number"@, t),
                },
                None => r matches Err(e) && is_expected(e, "Number"@, "None"@),
            },
    {
        match self.read_signed(field, i16::MIN as i64, i16::MAX as i64) {
            Ok(v) => Ok(v as i16),
            Err(e) => Err(e),
        }
    }

    pub fn read_i32(&self, field: &str) -> (r: Result<i32, DecoderError>)
        ensures
            match field_text(self@, field@) {
                Some(t) => match parsed_signed(t, i32::MIN as int, i32::MAX as int) {
                    Some(v) => r == Ok::<i32, DecoderError>(v as i32),
                    None => r matches Err(e) && is_expected(e, "Number"@, t),
                },
                None => r matches Err(e) && is_expected(e, "Number"@, "None"@),
            },
    {
        match self.read_signed(field, i32::MIN as i64, i32::MAX as i64) {
            Ok(v) => Ok(v as i32),
            Err(e) => Err(e),
        }
    }

    pub fn read_i64(&self, field: &str) -> (r: Result<i64, DecoderError>)
        ensures
            match field_text(self@, field@) {
                Some(t) => match parsed_signed(t, i64::MIN as int, i64::MAX as int) {
                    Some(v) => r == Ok::<i64, DecoderError>(v as i64),
                    None => r matches Err(e) && is_expected(e, "Number"@, t),
                },
                None => r matches Err(e) && is_expected(e, "Number"@, "None"@),
            },
    {
        self.read_signed(field, i64::MIN, i64::MAX)
    }

    pub fn read_isize(&self, field: &str) -> (r: Result<isize, DecoderError>)
        ensures
            match field_text(self@, field@) {
                Some(t) => match parsed_signed(t, isize::MIN as int, isize::MAX as int) {
                    Some(v) => r == Ok::<isize, DecoderError>(v as isize),
                    None => r matches Err(e) && is_expected(e, "Number"@, t),
                },
                None => r matches Err(e) && is_expected(e, "Number"@, "None"@),
            },
    {
        match self.read_signed(field, isize::MIN as i64, isize::MAX as i64) {
            Ok(v) => Ok(v as isize),
            Err(e) => Err(e),
        }
    }

    /// A boolean, stored as `1` or `0`.
    pub fn read_bool(&self, field: &str) -> (r: Result<bool, DecoderError>)
        ensures
            match field_text(self@, field@) {
                Some(t) => if t == seq!['1'] {
                    r == Ok::<bool, DecoderError>(true)
                } else if t == seq!['0'] {
                    r == Ok::<bool, DecoderError>(false)
                } else {
                    r matches Err(e) && is_expected(e, "Bool"@, t)
                },
                None => r matches Err(e) && is_expected(e, "Bool"@, "None"@),
            },
    {
        match self.field_value(field) {
            Some(t) => {
                let s = t.as_str();
                if s.unicode_len() == 1 && s.get_char(0) == '1' {
                    assert(t@ =~= seq!['1']);
                    Ok(true)
                } else if s.unicode_len() == 1 && s.get_char(0) == '0' {
                    assert(t@ =~= seq!['0']);
                    Ok(false)
                } else {
                    Err(DecoderError::ExpectedError(String::from_str("Bool"), t))
                }
            },
            None => Err(
                DecoderError::ExpectedError(String::from_str("Bool"), String::from_str("None")),
            ),
        }
    }

    /// A character, stored as the one character it is.
    pub fn read_char(&self, field: &str) -> (r: Result<char, DecoderError>)
        ensures
            match field_text(self@, field@) {
                Some(t) => if t.len() == 1 {
                    r == Ok::<char, DecoderError>(t[0])
                } else {
                    r matches Err(e) && is_expected(e, "Char"@, t)
                },
                None => r matches Err(e) && is_expected(e, "Char"@, "None"@),
            },
    {
        match self.field_value(field) {
            Some(t) => {
                let s = t.as_str();
                if s.unicode_len() == 1 {
                    Ok(s.get_char(0))
                } else {
                    Err(DecoderError::ExpectedError(String::from_str("Char"), t))
                }
            },
            None => Err(
                DecoderError::ExpectedError(String::from_str("Char"), String::from_str("None")),
            ),
        }
    }

    pub fn read_seq(&self) -> (r: Result<(), DecoderError>)
        ensures
            r matches Err(DecoderError::NotImplementedYet),
    {
        Err(DecoderError::NotImplementedYet)
    }

    pub fn read_map(&self) -> (r: Result<(), DecoderError>)
        ensures
            r matches Err(DecoderError::NotImplementedYet),
    {
        Err(DecoderError::NotImplementedYet)
    }

    pub fn read_enum_variant(&self) -> (r: Result<(), DecoderError>)
        ensures
            r matches Err(DecoderError::NotImplementedYet),
    {
        Err(DecoderError::NotImplementedYet)
    }

    pub fn read_tuple(&self) -> (r: Result<(), DecoderError>)
        ensures
            r matches Err(DecoderError::NotImplementedYet),
    {
        Err(DecoderError::NotImplementedYet)
    }

    /// An error raised by the object's own decoding.
    pub fn error(&self, err: &str) -> (r: DecoderError)
        ensures
            r matches DecoderError::ApplicationError(m) && m@ == err@,
    {
        DecoderError::ApplicationError(String::from_str(err))
    }
}

} // verus!
