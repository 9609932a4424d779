use ohmers::encoder::Encoder;
use ohmers::persist::OhmerError;
use ohmers::properties::SetProperty;
use ohmers::store::Store;

fn named(class: &str, name: &str, with_players: bool) -> Encoder {
    let mut e = Encoder::new();
    e.emit_struct(class).unwrap();
    e.emit_str("name", name);
    if with_players {
        e.emit_set("players");
    }
    e
}

#[test]
fn test_set() {
    let mut players = Store::new("Player", vec![], vec![]);
    let mut teams = Store::new("Team", vec![], vec![]);
    let p1 = players.save(&named("Player", "Alice", false)).unwrap();
    let p2 = players.save(&named("Player", "Bob", false)).unwrap();
    let team = teams.save(&named("Team", "foo", true)).unwrap();
    let team_players = SetProperty::new();

    assert!(team_players.insert("players", team, p1, &mut teams).unwrap());
    assert!(!team_players.insert("players", team, p1, &mut teams).unwrap());
    assert!(teams.set_insert(team, "players", p2).unwrap());
    assert!(!teams.set_insert(team, "players", p2).unwrap());
    assert!(team_players.contains("players", team, p1, &teams).unwrap());
    assert!(team_players.contains("players", team, p2, &teams).unwrap());
    assert_eq!(team_players.len("players", team, &teams).unwrap(), 2);
    assert!(team_players.remove("players", team, p2, &mut teams).unwrap());
    assert!(!team_players.remove("players", team, p2, &mut teams).unwrap());
    assert!(team_players.contains("players", team, p1, &teams).unwrap());
    assert!(!team_players.contains("players", team, p2, &teams).unwrap());

    let q = SetProperty::new().query("Team", "players", team, "Player").unwrap();
    assert_eq!(q.class, "Player");
    match &q.set {
        stal::Set::Key(k) => assert_eq!(k.as_slice(), b"Team:players:1"),
        other => panic!("unexpected {:?}", other),
    }
    assert_eq!(team_players.len("players", team, &teams).unwrap(), 1);
}

#[test]
fn set_of_transient_owner_is_not_saved() {
    let mut teams = Store::new("Team", vec![], vec![]);
    assert_eq!(teams.set_insert(0, "players", 1), Err(OhmerError::NotSaved));
    assert!(matches!(SetProperty.key("Team", "players", 0), Err(OhmerError::NotSaved)));
}
