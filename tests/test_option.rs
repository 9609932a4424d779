use ohmers::decoder::{Decoder, DecoderError};
use ohmers::encoder::Encoder;
use ohmers::store::Store;

#[derive(PartialEq, Debug, Default)]
struct Person {
    id: usize,
    name: String,
    father_name: Option<String>,
}

impl Person {
    fn encode(&self) -> Encoder {
        let mut e = Encoder::new();
        e.emit_struct("Person").unwrap();
        e.emit_id(self.id);
        e.emit_str("name", &self.name);
        if let Some(f) = &self.father_name {
            e.emit_str("father_name", f);
        }
        e
    }

    fn decode(d: &Decoder) -> Result<Person, DecoderError> {
        Ok(Person {
            id: d.read_usize("id")?,
            name: d.read_str("name")?,
            father_name: if d.read_option("father_name") { Some(d.read_str("father_name")?) } else { None },
        })
    }
}

fn save_and_get(person: &mut Person) -> Person {
    let mut store = Store::new("Person", vec![], vec![]);
    person.id = store.save(&person.encode()).unwrap();
    Person::decode(&Decoder::new(store.load(person.id).unwrap())).unwrap()
}

#[test]
fn test_option_some() {
    let mut person = Person::default();
    person.name = "Alice".to_string();
    person.father_name = Some("Bob".to_string());
    let person2 = save_and_get(&mut person);
    assert_eq!(person, person2);
}

#[test]
fn test_option_none() {
    let mut person = Person::default();
    person.name = "Alice".to_string();
    let person2 = save_and_get(&mut person);
    assert_eq!(person, person2);
}

#[test]
fn absent_required_field_is_expected_error() {
    let d = Decoder::new(vec![("id".to_string(), "1".to_string())]);
    match d.read_str("name") {
        Err(DecoderError::ExpectedError(k, a)) => {
            assert_eq!(k, "String");
            assert_eq!(a, "None");
        }
        other => panic!("unexpected {:?}", other),
    }
    assert!(!d.read_option("name"));
}
