use std::collections::HashSet;

use ohmers::decoder::{Decoder, DecoderError};
use ohmers::encoder::Encoder;
use ohmers::query::Iter;
use ohmers::store::Store;

#[derive(PartialEq, Eq, Debug, Hash)]
struct Car {
    id: usize,
    name: String,
}

impl Car {
    fn defaults() -> Car {
        Car { id: 0, name: "".to_string() }
    }

    fn encode(&self) -> Encoder {
        let mut e = Encoder::new();
        e.emit_struct("Car").unwrap();
        e.emit_id(self.id);
        e.emit_str("name", &self.name);
        e
    }

    fn decode(d: &Decoder) -> Result<Car, DecoderError> {
        Ok(Car { id: d.read_usize("id")?, name: d.read_str("name")? })
    }

    fn save(&mut self, store: &mut Store) {
        self.id = store.save(&self.encode()).unwrap();
    }
}

fn all(store: &Store) -> Vec<Car> {
    let mut it = Iter::new(store.all());
    let mut out = vec![];
    while let Some(id) = it.next_id() {
        match store.load(id) {
            Some(props) => match Car::decode(&Decoder::new(props)) {
                Ok(c) => out.push(c),
                Err(_) => it.stop(),
            },
            None => it.stop(),
        }
    }
    out
}

#[test]
fn test_iter_all() {
    let mut store = Store::new("Car", vec![], vec![]);
    assert_eq!(all(&store).into_iter().collect::<HashSet<_>>().len(), 0);

    let mut toyota = Car::defaults();
    toyota.name = "Toyota".to_string();
    toyota.save(&mut store);

    let mut mercedes = Car::defaults();
    mercedes.name = "Mercedes".to_string();
    mercedes.save(&mut store);

    assert_eq!(
        all(&store).into_iter().collect::<HashSet<_>>(),
        HashSet::from_iter(vec![toyota, mercedes])
    );
}

#[test]
fn iter_hands_out_ids_in_order_with_exact_size() {
    let mut it = Iter::new(vec![4, 2, 9]);
    assert_eq!(it.size_hint(), (3, Some(3)));
    assert_eq!(it.next_id(), Some(4));
    assert_eq!(it.size_hint(), (2, Some(2)));
    assert_eq!(it.next_id(), Some(2));
    it.stop();
    assert_eq!(it.next_id(), None);
    assert_eq!(it.size_hint(), (0, Some(0)));
}

#[test]
fn iter_from_replies_keeps_the_last_reply() {
    let mut it = Iter::from_replies(vec![vec![1], vec![7, 8]]);
    assert_eq!(it.next_id(), Some(7));
    assert_eq!(it.next_id(), Some(8));
    assert_eq!(it.next_id(), None);
    let mut none = Iter::from_replies(vec![]);
    assert_eq!(none.next_id(), None);
}
