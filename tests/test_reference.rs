use ohmers::decoder::{Decoder, DecoderError};
use ohmers::encoder::Encoder;
use ohmers::properties::Reference;
use ohmers::store::Store;

#[derive(PartialEq, Debug)]
struct Person {
    id: usize,
    name: String,
    father: Reference,
    mother: Reference,
}

fn read_ref(d: &Decoder, field: &str) -> Result<Reference, DecoderError> {
    if d.read_option(field) {
        Ok(Reference::with_value(d.read_reference(field)?))
    } else {
        Ok(Reference::new())
    }
}

impl Person {
    fn defaults() -> Person {
        Person { id: 0, name: "".to_string(), father: Reference::new(), mother: Reference::new() }
    }

    fn encode(&self) -> Encoder {
        let mut e = Encoder::new();
        e.emit_struct("Person").unwrap();
        e.emit_id(self.id);
        e.emit_str("name", &self.name);
        e.emit_reference("father", self.father.id());
        e.emit_reference("mother", self.mother.id());
        e
    }

    fn decode(d: &Decoder) -> Result<Person, DecoderError> {
        Ok(Person {
            id: d.read_usize("id")?,
            name: d.read_str("name")?,
            father: read_ref(d, "father")?,
            mother: read_ref(d, "mother")?,
        })
    }
}

fn get(id: usize, store: &Store) -> Person {
    Person::decode(&Decoder::new(store.load(id).unwrap())).unwrap()
}

#[test]
fn test_reference() {
    let mut store = Store::new("Person", vec![], vec![]);
    let mut father = Person::defaults();
    father.name = "John".to_string();
    father.id = store.save(&father.encode()).unwrap();

    let mut mother = Person::defaults();
    mother.name = "Jane".to_string();
    mother.id = store.save(&mother.encode()).unwrap();

    let mut person = Person::defaults();
    person.name = "Alice".to_string();
    person.father.set(father.id);
    person.mother.set(mother.id);
    person.id = store.save(&person.encode()).unwrap();

    let person2 = get(person.id, &store);
    assert_eq!(person, person2);
    assert_eq!(get(person2.father.id(), &store), father);
    assert_eq!(get(person2.mother.id(), &store), mother);
}

#[derive(PartialEq, Debug)]
struct Location {
    id: usize,
    name: String,
}

#[derive(PartialEq, Debug)]
struct Event {
    id: usize,
    name: String,
    location: Reference,
}

#[test]
fn test_event_location() {
    let mut locations = Store::new("Location", vec![], vec![]);
    let mut events = Store::new("Event", vec![], vec![]);
    let mut location = Location { id: 0, name: "".to_string() };
    location.name = "House".to_string();
    let mut le = Encoder::new();
    le.emit_struct("Location").unwrap();
    le.emit_str("name", &location.name);
    location.id = locations.save(&le).unwrap();

    let mut event = Event { id: 0, name: "".to_string(), location: Reference::new() };
    event.name = "Birthday Party".to_string();
    event.location.set(location.id);
    assert_eq!(event.id, 0);
    let mut ee = Encoder::new();
    ee.emit_struct("Event").unwrap();
    ee.emit_id(event.id);
    ee.emit_str("name", &event.name);
    ee.emit_reference("location", event.location.id());
    event.id = events.save(&ee).unwrap();
    assert!(event.id > 0);

    let d = Decoder::new(events.load(event.id).unwrap());
    assert_eq!(d.read_str("name").unwrap(), "Birthday Party");
    let loc_id = d.read_reference("location").unwrap();
    let ld = Decoder::new(locations.load(loc_id).unwrap());
    assert_eq!(ld.read_str("name").unwrap(), "House");
}

#[test]
fn reference_is_stored_under_lower_case_alias() {
    let mut e = Encoder::new();
    e.emit_reference("Venue", 12);
    e.emit_reference("owner", 0);
    assert_eq!(e.attributes, vec!["venue_id".to_string(), "12".to_string()]);
    let d = Decoder::new(vec![("venue_id".to_string(), "12".to_string())]);
    assert_eq!(d.read_reference("Venue").unwrap(), 12);
    let bare = Decoder::new(vec![("venue".to_string(), "5".to_string())]);
    assert_eq!(bare.read_reference("venue").unwrap(), 5);
}
