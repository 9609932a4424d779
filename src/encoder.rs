//! Flattens an object into its record attributes and ancillary property names.
//!
//! An object describes itself by calling one emitter per field, in declared
//! order: the emitter names the field's role, so nothing is inferred from the
//! order of calls.
use vstd::prelude::*;
use crate::text::{
    ascii_lower, char_text, decimal, i64_text, lowercase, signed_decimal, texts, u64_text,
    usize_text,
};

verus! {

#[derive(Debug, PartialEq, Eq)]
pub enum EncoderError {
    /// A shape outside the protocol: a sequence, a map, an enum or a tuple.
    NotImplementedYet,
    MissingField,
    /// A nested struct that is none of the property kinds.
    UnknownStruct(String),
    /// The binary interchange format could not be written.
    MsgPackError,
}

/// What one field contributes, as the object holds it.
pub enum FieldModel {
    /// A scalar, as the text it is stored as.
    Text(Seq<char>),
    /// An optional value that is not there.
    Absent,
    /// The id of the referenced object.
    Reference(nat),
    CounterProperty,
    SetProperty,
    ListProperty,
    CollectionProperty,
}

/// The record key under which a reference field is stored: `{field}_id`, lower case.
pub open spec fn reference_key(field: Seq<char>) -> Seq<char> {
    ascii_lower(field) + "_id"@
}

/// The attribute tokens that one field adds: a name and a value, or nothing.
pub open spec fn field_attributes(field: Seq<char>, value: FieldModel) -> Seq<Seq<char>> {
    match value {
        FieldModel::Text(t) => seq![field, t],
        FieldModel::Reference(id) => if id == 0 {
            Seq::empty()
        } else {
            seq![reference_key(field), decimal(id)]
        },
        _ => Seq::empty(),
    }
}

/// The attributes of an object whose fields, in declared order, are `fields`.
pub open spec fn encode_attributes(fields: Seq<(Seq<char>, FieldModel)>) -> Seq<Seq<char>>
    decreases fields.len(),
{
    if fields.len() == 0 {
        Seq::empty()
    } else {
        encode_attributes(fields.drop_last()) + field_attributes(
            fields.last().0,
            fields.last().1,
        )
    }
}

pub struct EncoderView {
    pub id: nat,
    pub id_field: Seq<char>,
    pub name: Option<Seq<char>>,
    pub attributes: Seq<Seq<char>>,
    pub counters: Seq<Seq<char>>,
    pub sets: Seq<Seq<char>>,
    pub lists: Seq<Seq<char>>,
}

/// The flattened form of one object.
pub struct Encoder {
    /// The object's id; 0 while it is transient.
    pub id: usize,
    /// The name under which the id travels among the features; empty until the object
    /// being encoded names its identity field.
    pub id_field: String,
    /// The class name, set by the outermost struct.
    pub name: Option<String>,
    /// Alternating field names and values of the record.
    pub attributes: Vec<String>,
    pub counters: Vec<String>,
    pub sets: Vec<String>,
    pub lists: Vec<String>,
}

impl View for Encoder {
    type V = EncoderView;

    open spec fn view(&self) -> EncoderView {
        EncoderView {
            id: self.id as nat,
            id_field: self.id_field@,
            name: match self.name {
                Some(n) => Some(n@),
                None => None,
            },
            attributes: texts(self.attributes@),
            counters: texts(self.counters@),
            sets: texts(self.sets@),
            lists: texts(self.lists@),
        }
    }
}

/// The features of an encoded object: its class name, and its id unless it is 0.
pub open spec fn features_of(e: EncoderView) -> Seq<(Seq<char>, Seq<char>)> {
    let named = match e.name {
        Some(n) => seq![("name"@, n)],
        None => Seq::empty(),
    };
    if e.id == 0 {
        named
    } else {
        named.push((e.id_field, decimal(e.id)))
    }
}

impl Encoder {
    pub fn new() -> (r: Encoder)
        ensures
            r@ == (EncoderView {
                id: 0,
                id_field: Seq::empty(),
                name: None,
                attributes: Seq::empty(),
                counters: Seq::empty(),
                sets: Seq::empty(),
                lists: Seq::empty(),
            }),
    {
        let r = Encoder {
            id: 0,
            id_field: String::new(),
            name: None,
            attributes: Vec::new(),
            counters: Vec::new(),
            sets: Vec::new(),
            lists: Vec::new(),
        };
        assert(r@.id_field =~= Seq::empty());
        assert(r@.attributes =~= Seq::empty());
        assert(r@.counters =~= Seq::empty());
        assert(r@.sets =~= Seq::empty());
        assert(r@.lists =~= Seq::empty());
        r
    }

    /// Opens the object's struct. The outermost struct names the class; any struct
    /// nested inside it is none of the property kinds and is refused.
    pub fn emit_struct(&mut self, name: &str) -> (r: Result<(), EncoderError>)
        ensures
            old(self)@.name is None ==> r is Ok && final(self)@ == (EncoderView {
                name: Some(name@),
                ..old(self)@
            }),
            old(self)@.name is Some ==> final(self)@ == old(self)@ && (r matches Err(
                EncoderError::UnknownStruct(n),
            ) && n@ == name@),
    {
        if self.name.is_none() {
            self.name = Some(String::from_str(name));
            Ok(())
        } else {
            Err(EncoderError::UnknownStruct(String::from_str(name)))
        }
    }

    /// The identity field: kept out of the attributes, carried among the features.
    pub fn emit_id(&mut self, id: usize)
        ensures
            final(self)@ == (EncoderView { id: id as nat, ..old(self)@ }),
    {
        self.id = id;
    }

    fn push_pair(&mut self, field: String, value: String)
        ensures
            final(self)@ == (EncoderView {
                attributes: old(self)@.attributes + seq![field@, value@],
                ..old(self)@
            }),
    {
        self.attributes.push(field);
        self.attributes.push(value);
        assert(final(self)@.attributes =~= old(self)@.attributes + seq![field@, value@]);
    }

    pub fn emit_str(&mut self, field: &str, v: &str)
        ensures
            final(self)@ == (EncoderView {
                attributes: old(self)@.attributes + field_attributes(field@, FieldModel::Text(v@)),
                ..old(self)@
            }),
    {
        self.push_pair(String::from_str(field), String::from_str(v));
    }

    pub fn emit_u64(&mut self, field: &str, v: u64)
        ensures
            final(self)@ == (EncoderView {
                attributes: old(self)@.attributes + field_attributes(
                    field@,
                    FieldModel::Text(decimal(v as nat)),
                ),
                ..old(self)@
            }),
    {
        self.push_pair(String::from_str(field), u64_text(v));
    }

    pub fn emit_usize(&mut self, field: &str, v: usize)
        ensures
            final(self)@ == (EncoderView {
                attributes: old(self)@.attributes + field_attributes(
                    field@,
                    FieldModel::Text(decimal(v as nat)),
                ),
                ..old(self)@
            }),
    {
        self.push_pair(String::from_str(field), usize_text(v));
    }

    pub fn emit_i64(&mut self, field: &str, v: i64)
        ensures
            final(self)@ == (EncoderView {
                attributes: old(self)@.attributes + field_attributes(
                    field@,
                    FieldModel::Text(signed_decimal(v as int)),
                ),
                ..old(self)@
            }),
    {
        self.push_pair(String::from_str(field), i64_text(v));
    }

    pub fn emit_u8(&mut self, field: &str, v: u8)
        ensures
            final(self)@ == (EncoderView {
                attributes: old(self)@.attributes + field_attributes(
                    field@,
                    FieldModel::Text(decimal(v as nat)),
                ),
                ..old(self)@
            }),
    {
        self.emit_u64(field, v as u64);
    }

    pub fn emit_u16(&mut self, field: &str, v: u16)
        ensures
            final(self)@ == (EncoderView {
                attributes: old(self)@.attributes + field_attributes(
                    field@,
                    FieldModel::Text(decimal(v as nat)),
                ),
                ..old(self)@
            }),
    {
        self.emit_u64(field, v as u64);
    }

    pub fn emit_u32(&mut self, field: &str, v: u32)
        ensures
            final(self)@ == (EncoderView {
                attributes: old(self)@.attributes + field_attributes(
                    field@,
                    FieldModel::Text(decimal(v as nat)),
                ),
                ..old(self)@
            }),
    {
        self.emit_u64(field, v as u64);
    }

    pub fn emit_i8(&mut self, field: &str, v: i8)
        ensures
            final(self)@ == (EncoderView {
                attributes: old(self)@.attributes + field_attributes(
                    field@,
                    FieldModel::Text(signed_decimal(v as int)),
                ),
                ..old(self)@
            }),
    {
        self.emit_i64(field, v as i64);
    }

    pub fn emit_i16(&mut self, field: &str, v: i16)
        ensures
            final(self)@ == (EncoderView {
                attributes: old(self)@.attributes + field_attributes(
                    field@,
                    FieldModel::Text(signed_decimal(v as int)),
                ),
                ..old(self)@
            }),
    {
        self.emit_i64(field, v as i64);
    }

    pub fn emit_i32(&mut self, field: &str, v: i32)
        ensures
            final(self)@ == (EncoderView {
                attributes: old(self)@.attributes + field_attributes(
                    field@,
                    FieldModel::Text(signed_decimal(v as int)),
                ),
                ..old(self)@
            }),
    {
        self.emit_i64(field, v as i64);
    }

    pub fn emit_isize(&mut self, field: &str, v: isize)
        ensures
            final(self)@ == (EncoderView {
                attributes: old(self)@.attributes + field_attributes(
                    field@,
                    FieldModel::Text(signed_decimal(v as int)),
                ),
                ..old(self)@
            }),
    {
        self.emit_i64(field, v as i64);
    }

    /// A boolean is stored as `1` or `0`.
    pub fn emit_bool(&mut self, field: &str, v: bool)
        ensures
            final(self)@ == (EncoderView {
                attributes: old(self)@.attributes + field_attributes(
                    field@,
                    FieldModel::Text(if v { "1"@ } else { "0"@ }),
                ),
                ..old(self)@
            }),
    {
        let t = if v {
            String::from_str("1")
        } else {
            String::from_str("0")
        };
        self.push_pair(String::from_str(field), t);
    }

    pub fn emit_char(&mut self, field: &str, v: char)
        ensures
            final(self)@ == (EncoderView {
                attributes: old(self)@.attributes + field_attributes(
                    field@,
                    FieldModel::Text(seq![v]),
                ),
                ..old(self)@
            }),
    {
        self.push_pair(String::from_str(field), char_text(v));
    }

    /// A reference is stored as `{field}_id`, and not at all while it points nowhere.
    pub fn emit_reference(&mut self, field: &str, id: usize)
        ensures
            final(self)@ == (EncoderView {
                attributes: old(self)@.attributes + field_attributes(
                    field@,
                    FieldModel::Reference(id as nat),
                ),
                ..old(self)@
            }),
    {
        if id == 0 {
            assert(old(self)@.attributes + field_attributes(field@, FieldModel::Reference(0))
                =~= old(self)@.attributes);
        } else {
            let mut key = lowercase(field);
            key.append("_id");
            self.push_pair(key, usize_text(id));
        }
    }

    /// A counter lives under a key of its own and never enters the record.
    pub fn emit_counter(&mut self, field: &str)
        ensures
            final(self)@ == (EncoderView {
                counters: old(self)@.counters.push(field@),
                ..old(self)@
            }),
    {
        self.counters.push(String::from_str(field));
        assert(final(self)@.counters =~= old(self)@.counters.push(field@));
    }

    /// A set property lives under a key of its own and never enters the record.
    pub fn emit_set(&mut self, field: &str)
        ensures
            final(self)@ == (EncoderView { sets: old(self)@.sets.push(field@), ..old(self)@ }),
    {
        self.sets.push(String::from_str(field));
        assert(final(self)@.sets =~= old(self)@.sets.push(field@));
    }

    /// A reverse lookup is tracked with the sets and never enters the record.
    pub fn emit_collection(&mut self, field: &str)
        ensures
            final(self)@ == (EncoderView { sets: old(self)@.sets.push(field@), ..old(self)@ }),
    {
        self.emit_set(field);
    }

    /// A list property lives under a key of its own and never enters the record.
    pub fn emit_list(&mut self, field: &str)
        ensures
            final(self)@ == (EncoderView { lists: old(self)@.lists.push(field@), ..old(self)@ }),
    {
        self.lists.push(String::from_str(field));
        assert(final(self)@.lists =~= old(self)@.lists.push(field@));
    }

    pub fn emit_seq(&mut self) -> (r: Result<(), EncoderError>)
        ensures
            final(self)@ == old(self)@,
            r == Err::<(), EncoderError>(EncoderError::NotImplementedYet),
    {
        Err(EncoderError::NotImplementedYet)
    }

    pub fn emit_map(&mut self) -> (r: Result<(), EncoderError>)
        ensures
            final(self)@ == old(self)@,
            r == Err::<(), EncoderError>(EncoderError::NotImplementedYet),
    {
        Err(EncoderError::NotImplementedYet)
    }

    pub fn emit_enum(&mut self) -> (r: Result<(), EncoderError>)
        ensures
            final(self)@ == old(self)@,
            r == Err::<(), EncoderError>(EncoderError::NotImplementedYet),
    {
        Err(EncoderError::NotImplementedYet)
    }

    pub fn emit_tuple(&mut self) -> (r: Result<(), EncoderError>)
        ensures
            final(self)@ == old(self)@,
            r == Err::<(), EncoderError>(EncoderError::NotImplementedYet),
    {
        Err(EncoderError::NotImplementedYet)
    }

    /// The features that travel with the record: `name`, and the id unless it is 0.
    pub fn features(&self) -> (r: Vec<(String, String)>)
        ensures
            r@.map_values(|p: (String, String)| (p.0@, p.1@)) == features_of(self@),
    {
        let mut r: Vec<(String, String)> = Vec::new();
        match &self.name {
            Some(n) => {
                r.push((String::from_str("name"), n.clone()));
            },
            None => {},
        }
        if self.id != 0 {
            r.push((self.id_field.clone(), usize_text(self.id)));
        }
        assert(r@.map_values(|p: (String, String)| (p.0@, p.1@)) =~= features_of(self@));
        r
    }
}

} // verus!
