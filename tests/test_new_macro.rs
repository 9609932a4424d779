use ohmers::decoder::{attribute_pairs, Decoder};
use ohmers::encoder::Encoder;

struct Person {
    id: usize,
    name: String,
    age: u8,
    birthyear: u16,
}

impl Person {
    fn defaults() -> Person {
        Person { id: 0, name: "".to_owned(), age: 18, birthyear: 0 }
    }

    fn encode(&self, e: &mut Encoder) {
        e.emit_struct("Person").unwrap();
        e.emit_id(self.id);
        e.emit_str("name", &self.name);
        e.emit_u64("age", self.age as u64);
        e.emit_u64("birthyear", self.birthyear as u64);
    }

    fn decode(d: &Decoder) -> Person {
        Person {
            id: d.read_usize("id").unwrap(),
            name: d.read_str("name").unwrap(),
            age: d.read_u8("age").unwrap(),
            birthyear: d.read_u16("birthyear").unwrap(),
        }
    }
}

#[test]
fn test_new_macro() {
    let mut person = Person::defaults();
    person.name = "John".to_owned();
    person.birthyear = 1999;

    assert_eq!(&*person.name, "John");
    assert_eq!(person.age, 18);
    assert_eq!(person.birthyear, 1999);

    let mut e = Encoder::new();
    person.encode(&mut e);
    assert_eq!(e.id, 0);
    let mut props = attribute_pairs(&e.attributes);
    props.push(("id".to_owned(), "7".to_owned()));
    let loaded = Person::decode(&Decoder::new(props));
    assert_eq!(loaded.id, 7);
    assert_eq!(&*loaded.name, "John");
    assert_eq!(loaded.age, 18);
    assert_eq!(loaded.birthyear, 1999);
}
