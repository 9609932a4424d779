use ohmers::encoder::Encoder;
use ohmers::persist::{delete_args, OhmerError};
use ohmers::store::Store;

#[derive(Clone)]
struct Chair {
    id: usize,
    location: u32,
    color: u32,
}

impl Chair {
    fn encode(&self) -> Encoder {
        let mut e = Encoder::new();
        e.emit_struct("Chair").unwrap();
        e.emit_id(self.id);
        e.emit_u64("location", self.location as u64);
        e.emit_u64("color", self.color as u64);
        e.emit_counter("legs");
        e
    }
}

fn chair_store() -> Store {
    Store::new("Chair", vec!["location".to_string()], vec!["color".to_string()])
}

#[test]
fn test_model_delete() {
    let mut store = chair_store();
    let mut chair1 = Chair { id: 0, color: 0x0000FF, location: 1 };
    chair1.id = store.save(&chair1.encode()).unwrap();
    store.incr(chair1.id, "legs", 1).unwrap();
    store.delete(&chair1.encode()).unwrap();

    assert!(store.load(chair1.id).is_none());
    assert!(store.all().is_empty());
    assert_eq!(store.with("location", "1"), None);
    assert_eq!(store.counter_get(chair1.id, "legs").unwrap(), 0);
}

#[test]
fn delete_of_transient_object_is_not_saved() {
    let mut store = chair_store();
    let chair = Chair { id: 0, color: 1, location: 2 };
    assert_eq!(store.delete(&chair.encode()), Err(OhmerError::NotSaved));
    assert!(matches!(delete_args(&chair.encode(), &vec![]), Err(OhmerError::NotSaved)));
}

#[test]
fn delete_keeps_secondary_index_memberships() {
    let mut store = chair_store();
    let mut chair = Chair { id: 0, color: 7, location: 3 };
    chair.id = store.save(&chair.encode()).unwrap();
    store.delete(&chair.encode()).unwrap();
    assert_eq!(store.find("color", "7"), vec![chair.id]);
}

#[test]
fn unique_value_is_free_again_after_delete() {
    let mut store = chair_store();
    let mut a = Chair { id: 0, color: 1, location: 9 };
    a.id = store.save(&a.encode()).unwrap();
    store.delete(&a.encode()).unwrap();
    let b = Chair { id: 0, color: 2, location: 9 };
    let b_id = store.save(&b.encode()).unwrap();
    assert_eq!(b_id, 2);
    assert_eq!(store.with("location", "9"), Some(2));
}
