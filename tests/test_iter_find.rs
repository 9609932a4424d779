use std::collections::HashSet;

use ohmers::decoder::{Decoder, DecoderError};
use ohmers::encoder::Encoder;
use ohmers::query::Query;
use ohmers::store::Store;

#[derive(PartialEq, Eq, Debug, Hash, Clone, Default)]
struct Cat {
    id: usize,
    name: String,
    is_male: bool,
    age: u8,
}

impl Cat {
    fn encode(&self) -> Encoder {
        let mut e = Encoder::new();
        e.emit_struct("Cat").unwrap();
        e.emit_id(self.id);
        e.emit_str("name", &self.name);
        e.emit_bool("is_male", self.is_male);
        e.emit_u64("age", self.age as u64);
        e
    }

    fn decode(d: &Decoder) -> Result<Cat, DecoderError> {
        Ok(Cat {
            id: d.read_usize("id")?,
            name: d.read_str("name")?,
            is_male: d.read_bool("is_male")?,
            age: d.read_u8("age")?,
        })
    }

    fn save(&mut self, store: &mut Store) {
        self.id = store.save(&self.encode()).unwrap();
    }
}

/// Evaluates a query's set expression against the store, as the store-side pipeline does.
fn members(set: &stal::Set, store: &Store) -> Vec<usize> {
    match set {
        stal::Set::Key(k) => {
            let k = String::from_utf8(k.clone()).unwrap();
            let parts: Vec<&str> = k.splitn(4, ':').collect();
            if parts.len() == 2 && parts[1] == "all" {
                store.all()
            } else {
                assert_eq!(parts[1], "indices");
                store.find(parts[2], parts[3])
            }
        }
        stal::Set::Union(v) => {
            let mut out: Vec<usize> = vec![];
            for s in v {
                for id in members(s, store) {
                    if !out.contains(&id) {
                        out.push(id);
                    }
                }
            }
            out
        }
        stal::Set::Inter(v) => {
            let mut out = members(&v[0], store);
            for s in &v[1..] {
                let m = members(s, store);
                out.retain(|id| m.contains(id));
            }
            out
        }
        stal::Set::Diff(v) => {
            let mut out = members(&v[0], store);
            for s in &v[1..] {
                let m = members(s, store);
                out.retain(|id| !m.contains(id));
            }
            out
        }
    }
}

fn hydrate(ids: Vec<usize>, store: &Store) -> Vec<Cat> {
    ids.into_iter().map(|id| Cat::decode(&Decoder::new(store.load(id).unwrap())).unwrap()).collect()
}

#[test]
fn test_iter_find() {
    let mut store = Store::new("Cat", vec![], vec!["age".to_string(), "is_male".to_string()]);
    assert_eq!(store.all().len(), 0);

    let mut indiana = Cat::default();
    indiana.name = "Indiana".to_string();
    indiana.is_male = true;
    indiana.age = 7;
    indiana.save(&mut store);

    let mut merry = Cat::default();
    merry.name = "Merry".to_string();
    merry.is_male = false;
    merry.age = 3;
    merry.save(&mut store);

    let mut mozart = Cat::default();
    mozart.name = "Mozart".to_string();
    mozart.is_male = true;
    mozart.age = 2;
    mozart.save(&mut store);

    let mut dorothy = Cat::default();
    dorothy.name = "Dorothy".to_string();
    dorothy.is_male = false;
    dorothy.age = 2;
    dorothy.save(&mut store);

    let mut q = Query::find("Cat", "age", "2");
    q.inter("is_male", "0");
    let cats = hydrate(members(&q.set, &store), &store);
    assert_eq!(cats.len(), 1);
    assert_eq!(cats[0], dorothy);

    let mut q = Query::find("Cat", "age", "2");
    q.union("is_male", "0");
    let cats: HashSet<Cat> = hydrate(members(&q.set, &store), &store).into_iter().collect();
    assert_eq!(HashSet::from_iter(vec![merry.clone(), mozart.clone(), dorothy.clone()]), cats);

    let mut q = Query::find("Cat", "age", "2");
    q.diff("is_male", "0");
    let cats: HashSet<Cat> = hydrate(members(&q.set, &store), &store).into_iter().collect();
    assert_eq!(HashSet::from_iter(vec![mozart.clone()]), cats);

    let mut query = Query::find("Cat", "age", "2");
    query.diff("is_male", "0");
    let cats: HashSet<Cat> = hydrate(members(&query.set, &store), &store).into_iter().collect();
    assert_eq!(HashSet::from_iter(vec![mozart]), cats);
}

#[test]
fn set_algebra_on_a_store() {
    let mut store = Store::new("Cat", vec![], vec!["age".to_string(), "is_male".to_string()]);
    for (name, male, age) in [("A", true, 2), ("B", false, 2), ("C", true, 5)] {
        let mut c = Cat { id: 0, name: name.to_string(), is_male: male, age };
        c.save(&mut store);
    }
    let mut same = Query::find("Cat", "age", "2");
    same.union("age", "2");
    let mut u = members(&same.set, &store);
    u.sort();
    assert_eq!(u, vec![1, 2]);

    let mut empty = Query::find("Cat", "age", "2");
    empty.inter("age", "99");
    assert!(members(&empty.set, &store).is_empty());

    let mut ab = Query::find("Cat", "age", "2");
    ab.diff("is_male", "1");
    let mut ba = Query::find("Cat", "is_male", "1");
    ba.diff("age", "2");
    assert_eq!(members(&ab.set, &store), vec![2]);
    assert_eq!(members(&ba.set, &store), vec![3]);
}
