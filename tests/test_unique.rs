use ohmers::decoder::{Decoder, DecoderError};
use ohmers::encoder::Encoder;
use ohmers::persist::{save_failure, unique_violation, OhmerError};
use ohmers::store::Store;

#[derive(PartialEq, Debug)]
struct Thing {
    id: usize,
    name: String,
}

impl Thing {
    fn encode(&self) -> Encoder {
        let mut e = Encoder::new();
        e.emit_struct("Thing").unwrap();
        e.emit_id(self.id);
        e.emit_str("name", &self.name);
        e
    }

    fn decode(d: &Decoder) -> Result<Thing, DecoderError> {
        Ok(Thing { id: d.read_usize("id")?, name: d.read_str("name")? })
    }

    fn save(&mut self, store: &mut Store) -> Result<(), OhmerError> {
        self.id = store.save(&self.encode())?;
        Ok(())
    }
}

fn with(store: &Store, field: &str, value: &str) -> Option<Thing> {
    store.with(field, value).map(|id| Thing::decode(&Decoder::new(store.load(id).unwrap())).unwrap())
}

#[test]
fn test_unique() {
    let mut store = Store::new("Thing", vec!["name".to_string()], vec![]);
    let mut thing = Thing { id: 0, name: "Door".to_string() };
    thing.save(&mut store).unwrap();
    assert_eq!(store.with("name", "Door"), Some(thing.id));

    let mut thing2 = Thing { id: 0, name: "Door".to_string() };
    assert_eq!(thing2.save(&mut store).unwrap_err(), OhmerError::UniqueIndexViolation("name".to_string()));
    assert_eq!(thing2.id, 0);

    let thing3 = with(&store, "name", "Door").unwrap();
    assert_eq!(thing, thing3);

    assert!(with(&store, "name", "Window").is_none());
}

#[test]
fn person_scenario_alice_and_bob() {
    let mut store = Store::new("Person", vec!["name".to_string()], vec![]);
    let mut alice = Thing { id: 0, name: "Alice".to_string() };
    let mut e = alice.encode();
    e.name = Some("Person".to_string());
    alice.id = store.save(&e).unwrap();
    assert_eq!(alice.id, 1);
    let second = store.save(&Thing { id: 0, name: "Alice".to_string() }.encode());
    assert_eq!(second, Err(OhmerError::UniqueIndexViolation("name".to_string())));
    assert_eq!(with(&store, "name", "Alice").unwrap(), alice);
    assert!(with(&store, "name", "Bob").is_none());
    assert_eq!(store.all(), vec![1]);
}

#[test]
fn changing_a_unique_value_frees_the_old_one() {
    let mut store = Store::new("Thing", vec!["name".to_string()], vec![]);
    let mut a = Thing { id: 0, name: "Door".to_string() };
    a.save(&mut store).unwrap();
    a.name = "Gate".to_string();
    a.save(&mut store).unwrap();
    assert_eq!(store.with("name", "Door"), None);
    assert_eq!(store.with("name", "Gate"), Some(a.id));
    let mut b = Thing { id: 0, name: "Door".to_string() };
    b.save(&mut store).unwrap();
    assert_eq!(b.id, 2);
}

#[test]
fn violation_field_is_read_from_the_error_text() {
    assert_eq!(
        unique_violation("ERR Error running script: UniqueIndexViolation: name"),
        Some("name".to_string())
    );
    assert_eq!(unique_violation("ERR connection refused"), None);
    assert_eq!(
        save_failure(Some("email".to_string()), redis::RedisError::from((redis::ErrorKind::Io, "x"))),
        OhmerError::UniqueIndexViolation("email".to_string())
    );
}

#[test]
fn missing_unique_field_is_unknown_index() {
    let mut store = Store::new("Thing", vec!["email".to_string()], vec![]);
    let r = store.save(&Thing { id: 0, name: "x".to_string() }.encode());
    assert_eq!(r, Err(OhmerError::UnknownIndex("email".to_string())));
}
