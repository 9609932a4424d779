use ohmers::encoder::Encoder;
use ohmers::persist::OhmerError;
use ohmers::properties::Counter;
use ohmers::store::Store;

struct Candidate {
    id: usize,
    positive_votes: Counter,
    negative_votes: Counter,
}

impl Candidate {
    fn encode(&self) -> Encoder {
        let mut e = Encoder::new();
        e.emit_struct("Candidate").unwrap();
        e.emit_id(self.id);
        e.emit_counter("positive_votes");
        e.emit_counter("negative_votes");
        e
    }
}

#[test]
fn test_counter() {
    let mut store = Store::new("Candidate", vec![], vec![]);
    let mut candidate = Candidate { id: 0, positive_votes: Counter, negative_votes: Counter };
    assert!(candidate.positive_votes.incr(candidate.id, "positive_votes", 1, &mut store).is_err());
    assert!(candidate.positive_votes.get_key("Candidate", candidate.id, "positive_votes").is_err());
    candidate.id = store.save(&candidate.encode()).unwrap();
    assert_eq!(candidate.positive_votes.incr(candidate.id, "positive_votes", 1, &mut store).unwrap(), 1);
    assert_eq!(candidate.positive_votes.incr(candidate.id, "positive_votes", 1, &mut store).unwrap(), 2);

    assert_eq!(candidate.positive_votes.get(candidate.id, "positive_votes", &store).unwrap(), 2);
    assert_eq!(candidate.positive_votes.get(candidate.id, "positive_votes", &store).unwrap(), 2);
    assert_eq!(candidate.negative_votes.get(candidate.id, "negative_votes", &store).unwrap(), 0);

    assert_eq!(store.incr(candidate.id, "negative_votes", 1).unwrap(), 1);
    assert_eq!(store.incr(candidate.id, "positive_votes", 1).unwrap(), 3);
    assert_eq!(store.incr(candidate.id, "positive_votes", -1).unwrap(), 2);
    assert_eq!(
        candidate.negative_votes.get_key("Candidate", candidate.id, "negative_votes").unwrap(),
        "Candidate:1:negative_votes"
    );
}

#[test]
fn counter_before_save_is_not_saved() {
    let mut store = Store::new("Candidate", vec![], vec![]);
    assert_eq!(store.incr(0, "votes", 1), Err(OhmerError::NotSaved));
    assert_eq!(store.counter_get(0, "votes"), Err(OhmerError::NotSaved));
}

#[test]
fn counters_are_isolated_per_owner_and_property() {
    let mut store = Store::new("Candidate", vec![], vec![]);
    let a = store.save(&Candidate { id: 0, positive_votes: Counter, negative_votes: Counter }.encode()).unwrap();
    let b = store.save(&Candidate { id: 0, positive_votes: Counter, negative_votes: Counter }.encode()).unwrap();
    assert_eq!(store.incr(a, "positive_votes", 5).unwrap(), 5);
    assert_eq!(store.incr(b, "positive_votes", -2).unwrap(), -2);
    assert_eq!(store.incr(a, "negative_votes", 7).unwrap(), 7);
    assert_eq!(store.counter_get(a, "positive_votes").unwrap(), 5);
    assert_eq!(store.counter_get(b, "positive_votes").unwrap(), -2);
    assert_eq!(store.counter_get(b, "negative_votes").unwrap(), 0);
}

#[test]
fn counter_overflow_is_refused() {
    let mut store = Store::new("Candidate", vec![], vec![]);
    let a = store.save(&Candidate { id: 0, positive_votes: Counter, negative_votes: Counter }.encode()).unwrap();
    assert_eq!(store.incr(a, "positive_votes", i64::MAX).unwrap(), i64::MAX);
    assert!(store.incr(a, "positive_votes", 1).is_err());
    assert_eq!(store.counter_get(a, "positive_votes").unwrap(), i64::MAX);
}

#[test]
fn counter_value_defaults_to_zero() {
    assert_eq!(Counter.value(None), 0);
    assert_eq!(Counter.value(Some(-4)), -4);
}
