use ohmers::persist::OhmerError;
use ohmers::properties::Collection;
use ohmers::query::{pipeline, Plan, Query};

fn key_of(s: &stal::Set) -> Vec<u8> {
    match s {
        stal::Set::Key(k) => k.clone(),
        other => panic!("not a key: {:?}", other),
    }
}

fn b(s: &str) -> Vec<u8> {
    s.as_bytes().to_vec()
}

#[test]
fn find_is_one_index_leaf() {
    let q = Query::find("IPerson", "day_of_birth", "3");
    assert_eq!(q.class, "IPerson");
    assert_eq!(key_of(&q.set), b("IPerson:indices:day_of_birth:3"));
}

#[test]
fn union_inter_and_diff_fold_the_current_expression() {
    let mut q = Query::find("Cat", "age", "7");
    q.union("age", "2");
    match &q.set {
        stal::Set::Union(v) => {
            assert_eq!(key_of(&v[0]), b("Cat:indices:age:2"));
            assert_eq!(key_of(&v[1]), b("Cat:indices:age:7"));
        }
        other => panic!("{:?}", other),
    }
    q.inter("is_male", "1");
    match &q.set {
        stal::Set::Inter(v) => {
            assert_eq!(v.len(), 2);
            assert_eq!(key_of(&v[0]), b("Cat:indices:is_male:1"));
            assert!(matches!(v[1], stal::Set::Union(_)));
        }
        other => panic!("{:?}", other),
    }
    let mut d = Query::find("Cat", "age", "7");
    d.diff("is_male", "0");
    match &d.set {
        stal::Set::Diff(v) => {
            assert_eq!(key_of(&v[0]), b("Cat:indices:age:7"));
            assert_eq!(key_of(&v[1]), b("Cat:indices:is_male:0"));
        }
        other => panic!("{:?}", other),
    }
}

#[test]
fn from_keys_intersects_every_pair() {
    let q = Query::from_keys(
        "IPerson",
        &vec![("age".to_string(), "18".to_string()), ("month_of_birth".to_string(), "1".to_string())],
    );
    match &q.set {
        stal::Set::Inter(v) => {
            assert_eq!(key_of(&v[0]), b("IPerson:indices:age:18"));
            assert_eq!(key_of(&v[1]), b("IPerson:indices:month_of_birth:1"));
        }
        other => panic!("{:?}", other),
    }
}

#[test]
fn collection_finds_by_reference_alias() {
    let q = Collection::new().all("Movie", "Year", 3);
    assert_eq!(key_of(&q.set), b("Movie:indices:year_id:3"));
}

#[test]
fn sort_command_by_field_with_window() {
    let q = Query::find("TvShow", "name", "x");
    let t = q.sort_command("name", Some((1, 2)), true, true, &vec!["votes".to_string()]);
    let expected: Vec<Vec<u8>> = vec![
        b("SORT"),
        vec![],
        b("BY"),
        b("TvShow:*->name"),
        b("LIMIT"),
        b("1"),
        b("2"),
        b("ASC"),
        b("ALPHA"),
    ];
    assert_eq!(t, expected);
}

#[test]
fn sort_command_by_counter_descending() {
    let q = Query::find("TvShow", "name", "x");
    let t = q.sort_command("votes", None, false, false, &vec!["votes".to_string()]);
    assert_eq!(t, vec![b("SORT"), vec![], b("BY"), b("TvShow:*:votes"), b("DESC")]);
}

#[test]
fn try_iter_compiles_a_transaction() {
    let mut q = Query::find("Cat", "age", "7");
    q.inter("is_male", "1");
    let plan = q.try_iter();
    assert_eq!(plan.ops[0], vec![b("MULTI")]);
    assert_eq!(plan.ops[plan.ops.len() - 1], vec![b("EXEC")]);
    assert_eq!(plan.ops[plan.result][0], b("SINTER"));
    let cmds = pipeline(plan).unwrap();
    assert_eq!(cmds.len(), 1);
    assert_eq!(cmds[0].name, "SINTER");
    assert!(!cmds[0].ignored);
    assert_eq!(cmds[0].args, vec![b("Cat:indices:is_male:1"), b("Cat:indices:age:7")]);
}

#[test]
fn nested_query_keeps_only_the_final_reply() {
    let mut q = Query::find("Cat", "age", "7");
    q.union("age", "2");
    q.inter("is_male", "1");
    let plan = q.try_into_iter();
    let cmds = pipeline(plan).unwrap();
    assert_eq!(cmds.iter().filter(|c| !c.ignored).count(), 1);
    assert_eq!(cmds[0].name, "SUNIONSTORE");
    assert!(cmds[0].ignored);
    let kept = cmds.iter().find(|c| !c.ignored).unwrap();
    assert_eq!(kept.name, "SINTER");
    assert_eq!(cmds.last().unwrap().name, "DEL");
}

#[test]
fn sort_plan_sorts_the_query_set() {
    let q = Query::find("TvShow", "name", "x");
    let plan = q.sort("name", None, true, true, &vec![]);
    let cmds = pipeline(plan).unwrap();
    let kept = cmds.iter().find(|c| !c.ignored).unwrap();
    assert_eq!(kept.name, "SORT");
    assert_eq!(kept.args[0], b("TvShow:indices:name:x"));
}

#[test]
fn non_utf8_command_name_is_command_error() {
    let plan = Plan { ops: vec![vec![b("MULTI")], vec![vec![0xff, 0xfe], b("k")], vec![b("EXEC")]], result: 1 };
    match pipeline(plan) {
        Err(OhmerError::CommandError(bytes)) => assert_eq!(bytes, vec![0xff, 0xfe]),
        _ => panic!("expected a command error"),
    }
}

#[test]
fn leaf_query_plan_is_one_smembers() {
    let plan = Query::find("Cat", "age", "7").try_iter();
    assert_eq!(plan.result, 1);
    assert_eq!(plan.ops, vec![vec![b("MULTI")], vec![b("SMEMBERS"), b("Cat:indices:age:7")], vec![b("EXEC")]]);
}

#[test]
fn sort_plan_fills_the_placeholder() {
    let plan = Query::find("TvShow", "name", "x").sort("name", Some((0, 3)), false, true, &vec![]);
    assert_eq!(plan.result, 1);
    assert_eq!(
        plan.ops[1],
        vec![
            b("SORT"),
            b("TvShow:indices:name:x"),
            b("BY"),
            b("TvShow:*->name"),
            b("LIMIT"),
            b("0"),
            b("3"),
            b("DESC"),
            b("ALPHA")
        ]
    );
    let mut q = Query::find("TvShow", "name", "x");
    q.union("name", "y");
    let plan = q.sort("name", None, true, true, &vec![]);
    assert_eq!(plan.ops[plan.result][1], b("stal:0"));
}
