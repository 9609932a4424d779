use ohmers::decoder::{Decoder, DecoderError};
use ohmers::encoder::Encoder;
use ohmers::store::Store;

#[derive(PartialEq, Debug)]
struct Person {
    id: usize,
    name: String,
    age: u8,
}

impl Person {
    fn default_for() -> Person {
        Person { id: 0, name: "".to_owned(), age: 18 }
    }

    fn encode(&self, class: &str) -> Encoder {
        let mut e = Encoder::new();
        e.emit_struct(class).unwrap();
        e.emit_id(self.id);
        e.emit_str("name", &self.name);
        e.emit_u64("age", self.age as u64);
        e
    }

    fn decode(d: &Decoder) -> Result<Person, DecoderError> {
        Ok(Person { id: d.read_usize("id")?, name: d.read_str("name")?, age: d.read_u8("age")? })
    }
}

fn class_name(e: &Encoder) -> String {
    e.name.clone().unwrap()
}

fn run(class: &str, uniques: Vec<&str>, indices: Vec<&str>) {
    let unique_fields: Vec<String> = uniques.iter().map(|s| s.to_string()).collect();
    let index_fields: Vec<String> = indices.iter().map(|s| s.to_string()).collect();
    let mut store = Store::new(class, unique_fields.clone(), index_fields.clone());
    let mut person = Person::default_for();
    assert_eq!(person.id, 0);
    assert_eq!(person.name, "".to_owned());
    assert_eq!(person.age, 18);
    assert_eq!(class_name(&person.encode(class)), class.to_owned());
    assert_eq!(index_fields.len(), indices.len());
    assert_eq!(unique_fields.len(), uniques.len());
    person.id = store.save(&person.encode(class)).unwrap();
    let loaded = Person::decode(&Decoder::new(store.load(person.id).unwrap())).unwrap();
    assert_eq!(loaded, person);
}

#[test]
fn test_model_macro() {
    run("Person", vec![], vec![]);
}

#[test]
fn test_model_unique_macro() {
    run("UPerson", vec!["name"], vec![]);
}

#[test]
fn test_model_index_macro() {
    run("IPerson", vec![], vec!["age"]);
}

#[test]
fn test_model_unique_index_macro() {
    run("UIPerson", vec!["name"], vec!["age"]);
}

#[test]
fn indexed_field_is_found_by_value() {
    let mut store = Store::new("IPerson", vec![], vec!["age".to_string()]);
    let a = store.save(&Person { id: 0, name: "A".into(), age: 18 }.encode("IPerson")).unwrap();
    let b = store.save(&Person { id: 0, name: "B".into(), age: 30 }.encode("IPerson")).unwrap();
    assert_eq!(store.find("age", "18"), vec![a]);
    assert_eq!(store.find("age", "30"), vec![b]);
    store.save(&Person { id: a, name: "A".into(), age: 30 }.encode("IPerson")).unwrap();
    assert_eq!(store.find("age", "18"), Vec::<usize>::new());
    let mut thirty = store.find("age", "30");
    thirty.sort();
    assert_eq!(thirty, vec![a, b]);
}

#[test]
fn missing_indexed_field_is_unknown_index() {
    let mut store = Store::new("IPerson", vec![], vec!["height".to_string()]);
    let r = store.save(&Person::default_for().encode("IPerson"));
    assert_eq!(r, Err(ohmers::persist::OhmerError::UnknownIndex("height".to_string())));
    assert!(store.all().is_empty());
}
