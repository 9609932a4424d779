use ohmers::decoder::Decoder;
use ohmers::encoder::Encoder;
use ohmers::persist::OhmerError;
use ohmers::properties::List;
use ohmers::store::Store;

fn queue(name: &str) -> Encoder {
    let mut e = Encoder::new();
    e.emit_struct("Queue").unwrap();
    e.emit_str("name", name);
    e.emit_list("tasks");
    e
}

fn task(payload: &str) -> Encoder {
    let mut e = Encoder::new();
    e.emit_struct("Task").unwrap();
    e.emit_str("payload", payload);
    e
}

fn load_task(tasks: &Store, id: Option<usize>) -> Option<String> {
    id.map(|id| Decoder::new(tasks.load(id).unwrap()).read_str("payload").unwrap())
}

#[test]
fn test_list() {
    let mut store = Store::new("Queue", vec![], vec![]);
    let tasks_prop = List::new();
    let mut tasks = Store::new("Task", vec![], vec![]);
    let q1 = store.save(&queue("q1")).unwrap();
    let q2 = store.save(&queue("q2")).unwrap();
    let t1 = tasks.save(&task("t1")).unwrap();
    let t2 = tasks.save(&task("t2")).unwrap();
    let t3 = tasks.save(&task("t3")).unwrap();
    let t4 = tasks.save(&task("t4")).unwrap();

    tasks_prop.push_back("tasks", q1, t1, &mut store).unwrap();
    assert_eq!(tasks_prop.len("tasks", q1, &store).unwrap(), 1);
    tasks_prop.push_back("tasks", q1, t2, &mut store).unwrap();
    assert_eq!(tasks_prop.len("tasks", q1, &store).unwrap(), 2);
    tasks_prop.push_back("tasks", q1, t3, &mut store).unwrap();
    assert_eq!(tasks_prop.len("tasks", q1, &store).unwrap(), 3);

    tasks_prop.push_back("tasks", q2, t1, &mut store).unwrap();
    tasks_prop.push_back("tasks", q2, t2, &mut store).unwrap();
    tasks_prop.push_back("tasks", q2, t3, &mut store).unwrap();

    assert_eq!(load_task(&tasks, tasks_prop.pop_back("tasks", q1, &mut store).unwrap()), Some("t3".to_string()));
    assert_eq!(tasks_prop.len("tasks", q1, &store).unwrap(), 2);
    assert_eq!(load_task(&tasks, tasks_prop.pop_front("tasks", q1, &mut store).unwrap()), Some("t1".to_string()));
    tasks_prop.push_front("tasks", q1, t1, &mut store).unwrap();
    assert_eq!(load_task(&tasks, tasks_prop.last("tasks", q1, &store).unwrap()), Some("t2".to_string()));
    assert_eq!(load_task(&tasks, tasks_prop.pop_back("tasks", q1, &mut store).unwrap()), Some("t2".to_string()));
    assert_eq!(load_task(&tasks, tasks_prop.first("tasks", q1, &store).unwrap()), Some("t1".to_string()));
    assert_eq!(load_task(&tasks, tasks_prop.pop_front("tasks", q1, &mut store).unwrap()), Some("t1".to_string()));
    assert_eq!(tasks_prop.first("tasks", q1, &store).unwrap(), None);
    assert_eq!(tasks_prop.last("tasks", q1, &store).unwrap(), None);
    assert_eq!(tasks_prop.pop_front("tasks", q1, &mut store).unwrap(), None);
    assert_eq!(tasks_prop.pop_back("tasks", q1, &mut store).unwrap(), None);
    assert_eq!(tasks_prop.len("tasks", q1, &store).unwrap(), 0);

    assert_eq!(tasks_prop.try_range("tasks", q2, 0, 1, &store).unwrap(), vec![t1, t2]);
    assert_eq!(tasks_prop.try_iter("tasks", q2, &store).unwrap(), vec![t1, t2, t3]);

    assert!(tasks_prop.contains("tasks", q2, t1, &store).unwrap());
    assert!(tasks_prop.contains("tasks", q2, t2, &store).unwrap());
    assert!(tasks_prop.contains("tasks", q2, t3, &store).unwrap());
    assert!(!tasks_prop.contains("tasks", q2, t4, &store).unwrap());

    tasks_prop.push_back("tasks", q2, t1, &mut store).unwrap();
    assert_eq!(tasks_prop.remove("tasks", q2, t1, &mut store).unwrap(), 2);
    assert_eq!(tasks_prop.remove("tasks", q2, t1, &mut store).unwrap(), 0);
    assert_eq!(tasks_prop.remove("tasks", q2, t2, &mut store).unwrap(), 1);
    assert_eq!(tasks_prop.len("tasks", q2, &store).unwrap(), 1);
    assert_eq!(tasks_prop.remove("tasks", q2, t3, &mut store).unwrap(), 1);
    assert_eq!(tasks_prop.len("tasks", q2, &store).unwrap(), 0);
    assert_eq!(tasks_prop.remove("tasks", q2, t3, &mut store).unwrap(), 0);
}

#[test]
fn test_list_macros() {
    let mut store = Store::new("Queue", vec![], vec![]);
    let mut tasks = Store::new("Task", vec![], vec![]);
    let q1 = store.save(&queue("q1")).unwrap();
    let q2 = store.save(&queue("q2")).unwrap();
    let t1 = tasks.save(&task("t1")).unwrap();
    let t2 = tasks.save(&task("t2")).unwrap();
    let t3 = tasks.save(&task("t3")).unwrap();
    let t4 = tasks.save(&task("t4")).unwrap();

    store.push_back(q1, "tasks", t1).unwrap();
    assert_eq!(store.list_len(q1, "tasks").unwrap(), 1);
    store.push_back(q1, "tasks", t2).unwrap();
    assert_eq!(store.list_len(q1, "tasks").unwrap(), 2);
    store.push_back(q1, "tasks", t3).unwrap();
    assert_eq!(store.list_len(q1, "tasks").unwrap(), 3);

    store.push_back(q2, "tasks", t1).unwrap();
    store.push_back(q2, "tasks", t2).unwrap();
    store.push_back(q2, "tasks", t3).unwrap();

    assert_eq!(load_task(&tasks, store.pop_back(q1, "tasks").unwrap()), Some("t3".to_string()));
    assert_eq!(store.list_len(q1, "tasks").unwrap(), 2);
    assert_eq!(load_task(&tasks, store.pop_front(q1, "tasks").unwrap()), Some("t1".to_string()));
    store.push_front(q1, "tasks", t1).unwrap();
    assert_eq!(load_task(&tasks, store.list_last(q1, "tasks").unwrap()), Some("t2".to_string()));
    assert_eq!(load_task(&tasks, store.pop_back(q1, "tasks").unwrap()), Some("t2".to_string()));
    assert_eq!(load_task(&tasks, store.list_first(q1, "tasks").unwrap()), Some("t1".to_string()));
    assert_eq!(load_task(&tasks, store.pop_front(q1, "tasks").unwrap()), Some("t1".to_string()));
    assert_eq!(store.list_first(q1, "tasks").unwrap(), None);
    assert_eq!(store.list_last(q1, "tasks").unwrap(), None);
    assert_eq!(store.pop_front(q1, "tasks").unwrap(), None);
    assert_eq!(store.pop_back(q1, "tasks").unwrap(), None);
    assert_eq!(store.list_len(q1, "tasks").unwrap(), 0);

    assert_eq!(store.list_range(q2, "tasks", 0, 1).unwrap(), vec![t1, t2]);
    assert_eq!(store.list_range(q2, "tasks", 0, -1).unwrap(), vec![t1, t2, t3]);

    assert!(store.list_contains(q2, "tasks", t1).unwrap());
    assert!(store.list_contains(q2, "tasks", t2).unwrap());
    assert!(store.list_contains(q2, "tasks", t3).unwrap());
    assert!(!store.list_contains(q2, "tasks", t4).unwrap());

    store.push_back(q2, "tasks", t1).unwrap();
    assert_eq!(store.list_remove(q2, "tasks", t1).unwrap(), 2);
    assert_eq!(store.list_remove(q2, "tasks", t1).unwrap(), 0);
    assert_eq!(store.list_remove(q2, "tasks", t2).unwrap(), 1);
    assert_eq!(store.list_len(q2, "tasks").unwrap(), 1);
    assert_eq!(store.list_remove(q2, "tasks", t3).unwrap(), 1);
    assert_eq!(store.list_len(q2, "tasks").unwrap(), 0);
    assert_eq!(store.list_remove(q2, "tasks", t3).unwrap(), 0);
}

#[test]
fn lists_of_two_owners_do_not_mix() {
    let mut store = Store::new("Queue", vec![], vec![]);
    let q1 = store.save(&queue("q1")).unwrap();
    let q2 = store.save(&queue("q2")).unwrap();
    store.push_back(q1, "tasks", 10).unwrap();
    store.push_back(q2, "tasks", 20).unwrap();
    store.push_back(q1, "tasks", 11).unwrap();
    assert_eq!(store.pop_front(q2, "tasks").unwrap(), Some(20));
    assert_eq!(store.pop_front(q2, "tasks").unwrap(), None);
    assert_eq!(store.pop_front(q1, "tasks").unwrap(), Some(10));
    assert_eq!(store.pop_front(q1, "tasks").unwrap(), Some(11));
}

#[test]
fn list_of_transient_owner_is_not_saved() {
    let mut store = Store::new("Queue", vec![], vec![]);
    assert_eq!(store.push_back(0, "tasks", 1), Err(OhmerError::NotSaved));
    assert!(List.key_name("Queue", "tasks", 0).is_err());
    assert_eq!(List::new().key_name("Queue", "tasks", 3).unwrap(), "Queue:tasks:3");
}

#[test]
fn list_range_counts_negative_bounds_from_the_end() {
    let mut store = Store::new("Queue", vec![], vec![]);
    let q = store.save(&queue("q")).unwrap();
    for x in [1, 2, 3, 4] {
        store.push_back(q, "tasks", x).unwrap();
    }
    assert_eq!(store.list_range(q, "tasks", -2, -1).unwrap(), vec![3, 4]);
    assert_eq!(store.list_range(q, "tasks", 1, 100).unwrap(), vec![2, 3, 4]);
    assert_eq!(store.list_range(q, "tasks", 3, 1).unwrap(), Vec::<usize>::new());
    assert_eq!(store.list_range(q, "tasks", -100, 0).unwrap(), vec![1]);
}
