use graph_edges::doc::{DefineTable, Document, Object, Options, Relation, TableType, Value, Workable};
use graph_edges::edges::{enforce_relation, project_edge, write_edges};
use graph_edges::err::Error;
use graph_edges::key::{edge_key, edge_prefix, thing_key, Dir, Key, Thing};
use graph_edges::txn::Transaction;

fn opts() -> Options {
    Options { ns: Some("n".to_string()), db: Some("d".to_string()) }
}

fn relation(enforced: bool) -> DefineTable {
    DefineTable { drop: false, kind: TableType::Relation(Relation { enforced }) }
}

fn relate_doc(rid: &Thing, l: &Thing, r: &Thing) -> Document {
    Document {
        id: rid.clone(),
        extras: Workable::Relate(l.clone(), r.clone()),
        current: Object::new(),
    }
}

fn quad(l: &Thing, rid: &Thing, r: &Thing) -> Vec<Key> {
    vec![
        edge_key("n", "d", l, Dir::Out, rid),
        edge_key("n", "d", rid, Dir::In, l),
        edge_key("n", "d", rid, Dir::Out, r),
        edge_key("n", "d", r, Dir::In, rid),
    ]
}

fn is_thing(v: Option<&Value>, tb: &str, id: &str) -> bool {
    match v {
        Some(Value::Thing(t)) => t.tb == tb && t.id == id,
        _ => false,
    }
}

fn store_records(tx: &mut Transaction, things: &[&Thing]) {
    for t in things {
        assert!(tx.set(thing_key("n", "d", t)).is_ok());
    }
}

#[test]
fn example_enforced_relate() {
    let p1 = Thing::new("person", "1");
    let p2 = Thing::new("person", "2");
    let rid = Thing::new("likes", "7");
    let mut tx = Transaction::new(true);
    store_records(&mut tx, &[&p1, &p2]);
    let mut doc = relate_doc(&rid, &p1, &p2);
    let res = doc.store_edges_data(&mut tx, &opts(), &relation(true));
    assert!(res.is_ok());
    for k in quad(&p1, &rid, &p2) {
        assert!(tx.has_key(&k));
    }
    assert_eq!(tx.len(), 6);
    assert_eq!(tx.graph_count("n", "d", &rid), 1);
    assert_eq!(tx.graph_count("n", "d", &p1), 0);
    assert!(matches!(doc.current.get("__"), Some(Value::Bool(true))));
    assert!(is_thing(doc.current.get("in"), "person", "1"));
    assert!(is_thing(doc.current.get("out"), "person", "2"));
}

#[test]
fn quad_invariant_exact_entries() {
    let l = Thing::new("person", "1");
    let r = Thing::new("person", "2");
    let rid = Thing::new("likes", "7");
    let mut tx = Transaction::new(true);
    let mut doc = relate_doc(&rid, &l, &r);
    assert!(doc.store_edges_data(&mut tx, &opts(), &relation(false)).is_ok());
    assert_eq!(tx.len(), 4);
    assert!(tx.has_key(&edge_key("n", "d", &l, Dir::Out, &rid)));
    assert!(tx.has_key(&edge_key("n", "d", &rid, Dir::In, &l)));
    assert!(tx.has_key(&edge_key("n", "d", &rid, Dir::Out, &r)));
    assert!(tx.has_key(&edge_key("n", "d", &r, Dir::In, &rid)));
    assert!(!tx.has_key(&edge_key("n", "d", &l, Dir::In, &rid)));
    assert!(!tx.has_key(&edge_key("n", "d", &r, Dir::Out, &rid)));
}

#[test]
fn enforced_missing_left() {
    let l = Thing::new("person", "1");
    let r = Thing::new("person", "2");
    let rid = Thing::new("likes", "7");
    let mut tx = Transaction::new(true);
    store_records(&mut tx, &[&r]);
    let mut doc = relate_doc(&rid, &l, &r);
    let res = doc.store_edges_data(&mut tx, &opts(), &relation(true));
    match res {
        Err(Error::EndpointNotFound(t)) => assert!(t.tb == "person" && t.id == "1"),
        _ => panic!("expected the left endpoint to be reported"),
    }
    assert_eq!(tx.len(), 1);
    assert_eq!(tx.graph_count("n", "d", &rid), 0);
    assert!(doc.current.get("__").is_none());
}

#[test]
fn enforced_missing_right() {
    let l = Thing::new("person", "1");
    let r = Thing::new("person", "2");
    let rid = Thing::new("likes", "7");
    let mut tx = Transaction::new(true);
    store_records(&mut tx, &[&l]);
    let mut doc = relate_doc(&rid, &l, &r);
    let res = doc.store_edges_data(&mut tx, &opts(), &relation(true));
    match res {
        Err(Error::EndpointNotFound(t)) => assert!(t.tb == "person" && t.id == "2"),
        _ => panic!("expected the right endpoint to be reported"),
    }
    assert_eq!(tx.len(), 1);
    assert_eq!(tx.graph_count("n", "d", &rid), 0);
}

#[test]
fn enforced_both_missing_reports_left() {
    let l = Thing::new("person", "1");
    let r = Thing::new("person", "2");
    let tx = Transaction::new(true);
    match enforce_relation(&tx, "n", "d", &l, &r) {
        Err(Error::EndpointNotFound(t)) => assert!(t.id == "1"),
        _ => panic!("expected the left endpoint to be reported"),
    }
}

#[test]
fn enforcement_passes_when_both_exist() {
    let l = Thing::new("person", "1");
    let r = Thing::new("person", "2");
    let mut tx = Transaction::new(true);
    store_records(&mut tx, &[&l, &r]);
    assert!(enforce_relation(&tx, "n", "d", &l, &r).is_ok());
    // another database does not hold them
    assert!(enforce_relation(&tx, "n", "other", &l, &r).is_err());
}

#[test]
fn unenforced_relate_skips_existence_check() {
    let l = Thing::new("person", "1");
    let r = Thing::new("person", "2");
    let rid = Thing::new("likes", "7");
    let mut tx = Transaction::new(true);
    let mut doc = relate_doc(&rid, &l, &r);
    assert!(doc.store_edges_data(&mut tx, &opts(), &relation(false)).is_ok());
    assert_eq!(tx.len(), 4);
    assert_eq!(tx.graph_count("n", "d", &rid), 1);
}

#[test]
fn normal_table_skips_existence_check() {
    let l = Thing::new("person", "1");
    let r = Thing::new("person", "2");
    let rid = Thing::new("likes", "7");
    let mut tx = Transaction::new(true);
    let mut doc = relate_doc(&rid, &l, &r);
    let tb = DefineTable { drop: false, kind: TableType::Normal };
    assert!(doc.store_edges_data(&mut tx, &opts(), &tb).is_ok());
    assert_eq!(tx.len(), 4);
}

#[test]
fn view_table_writes_nothing() {
    let l = Thing::new("person", "1");
    let r = Thing::new("person", "2");
    let rid = Thing::new("likes", "7");
    let mut tx = Transaction::new(true);
    let mut doc = relate_doc(&rid, &l, &r);
    let tb = DefineTable { drop: true, kind: TableType::Relation(Relation { enforced: true }) };
    assert!(doc.store_edges_data(&mut tx, &opts(), &tb).is_ok());
    assert_eq!(tx.len(), 0);
    assert_eq!(tx.graph_count("n", "d", &rid), 0);
    assert!(doc.current.get("in").is_none());
}

#[test]
fn non_relate_mutation_writes_nothing() {
    let rid = Thing::new("likes", "7");
    let mut tx = Transaction::new(true);
    let mut doc = Document { id: rid.clone(), extras: Workable::Normal, current: Object::new() };
    let missing = Options { ns: None, db: None };
    assert!(doc.store_edges_data(&mut tx, &missing, &relation(true)).is_ok());
    assert_eq!(tx.len(), 0);
}

#[test]
fn count_follows_successful_relates() {
    let rid = Thing::new("likes", "7");
    let mut tx = Transaction::new(true);
    let people = ["1", "2", "3", "4"];
    for i in 0..3 {
        let l = Thing::new("person", people[i]);
        let r = Thing::new("person", people[i + 1]);
        let mut doc = relate_doc(&rid, &l, &r);
        assert!(doc.store_edges_data(&mut tx, &opts(), &relation(false)).is_ok());
    }
    assert_eq!(tx.graph_count("n", "d", &rid), 3);
    // each relate adds four entries that no other relate wrote
    assert_eq!(tx.len(), 12);
}

#[test]
fn projection_sets_edge_fields() {
    let l = Thing::new("person", "1");
    let r = Thing::new("person", "2");
    let mut obj = Object::new();
    obj.put("name", Value::Strand("likes".to_string()));
    obj.put("in", Value::Null);
    project_edge(&mut obj, &l, &r);
    assert!(matches!(obj.get("__"), Some(Value::Bool(true))));
    assert!(is_thing(obj.get("in"), "person", "1"));
    assert!(is_thing(obj.get("out"), "person", "2"));
    assert!(matches!(obj.get("name"), Some(Value::Strand(s)) if s == "likes"));
}

#[test]
fn double_relate_counts_twice() {
    let l = Thing::new("person", "1");
    let r = Thing::new("person", "2");
    let rid = Thing::new("likes", "7");
    let mut tx = Transaction::new(true);
    let mut doc = relate_doc(&rid, &l, &r);
    assert!(doc.store_edges_data(&mut tx, &opts(), &relation(false)).is_ok());
    assert!(doc.store_edges_data(&mut tx, &opts(), &relation(false)).is_ok());
    assert_eq!(tx.len(), 4);
    assert_eq!(tx.graph_count("n", "d", &rid), 2);
}

#[test]
fn missing_namespace_is_reported() {
    let l = Thing::new("person", "1");
    let r = Thing::new("person", "2");
    let rid = Thing::new("likes", "7");
    let mut tx = Transaction::new(true);
    let mut doc = relate_doc(&rid, &l, &r);
    let o = Options { ns: None, db: Some("d".to_string()) };
    assert!(matches!(doc.store_edges_data(&mut tx, &o, &relation(false)), Err(Error::MissingContext)));
    let o = Options { ns: Some("n".to_string()), db: None };
    assert!(matches!(doc.store_edges_data(&mut tx, &o, &relation(false)), Err(Error::MissingContext)));
    assert_eq!(tx.len(), 0);
}

#[test]
fn read_only_transaction_faults() {
    let l = Thing::new("person", "1");
    let r = Thing::new("person", "2");
    let rid = Thing::new("likes", "7");
    let mut tx = Transaction::new(false);
    let mut doc = relate_doc(&rid, &l, &r);
    assert!(matches!(doc.store_edges_data(&mut tx, &opts(), &relation(false)), Err(Error::StorageFault)));
    assert_eq!(tx.len(), 0);
    assert_eq!(tx.graph_count("n", "d", &rid), 0);
    assert!(doc.current.get("__").is_none());
    assert!(matches!(write_edges(&mut tx, "n", "d", &l, &rid, &r), Err(Error::StorageFault)));
}

#[test]
fn count_overflow_faults_after_edges() {
    let l = Thing::new("person", "1");
    let r = Thing::new("person", "2");
    let rid = Thing::new("likes", "7");
    let mut tx = Transaction::new(true);
    assert!(tx.modify_graph_count("n", "d", &rid, i64::MAX).is_ok());
    let mut doc = relate_doc(&rid, &l, &r);
    assert!(matches!(doc.store_edges_data(&mut tx, &opts(), &relation(false)), Err(Error::StorageFault)));
    assert_eq!(tx.len(), 4);
    assert_eq!(tx.graph_count("n", "d", &rid), i64::MAX);
    assert!(doc.current.get("__").is_none());
}

#[test]
fn graph_count_accepts_negative_delta() {
    let rid = Thing::new("likes", "7");
    let mut tx = Transaction::new(true);
    assert!(tx.modify_graph_count("n", "d", &rid, 5).is_ok());
    assert!(tx.modify_graph_count("n", "d", &rid, -2).is_ok());
    assert_eq!(tx.graph_count("n", "d", &rid), 3);
    assert_eq!(tx.graph_count("n", "other", &rid), 0);
    assert!(tx.modify_graph_count("n", "d", &rid, i64::MIN).is_ok());
    assert!(tx.modify_graph_count("n", "d", &rid, -4).is_err());
}

#[test]
fn write_edges_writes_four_entries() {
    let l = Thing::new("a", "1");
    let r = Thing::new("b", "2");
    let rid = Thing::new("e", "3");
    let mut tx = Transaction::new(true);
    assert!(write_edges(&mut tx, "n", "d", &l, &rid, &r).is_ok());
    assert_eq!(tx.len(), 4);
    assert!(tx.writable());
    assert_eq!(tx.graph_count("n", "d", &rid), 0);
}

#[test]
fn setting_a_key_twice_keeps_one() {
    let t = Thing::new("person", "1");
    let mut tx = Transaction::new(true);
    assert!(tx.set(thing_key("n", "d", &t)).is_ok());
    assert!(tx.set(thing_key("n", "d", &t)).is_ok());
    assert_eq!(tx.len(), 1);
    assert!(!tx.has_key(&edge_key("n", "d", &t, Dir::Out, &t)));
}

#[test]
fn keys_compare_structurally() {
    let a = Thing::new("person", "1");
    let b = Thing::new("person", "2");
    assert!(a.same(&a.duplicate()));
    assert!(!a.same(&b));
    assert!(thing_key("n", "d", &a).same(&thing_key("n", "d", &a)));
    assert!(!thing_key("n", "d", &a).same(&thing_key("n", "x", &a)));
    assert!(!edge_key("n", "d", &a, Dir::In, &b).same(&edge_key("n", "d", &a, Dir::Out, &b)));
    assert!(!thing_key("n", "d", &a).same(&edge_key("n", "d", &a, Dir::Out, &b)));
}

#[test]
fn options_report_missing_context() {
    let o = Options { ns: Some("n".to_string()), db: None };
    assert!(matches!(o.ns(), Ok("n")));
    assert!(matches!(o.db(), Err(Error::MissingContext)));
}

#[test]
fn thing_key_encoding_bytes() {
    let t = Thing::new("p", "1");
    let bytes = thing_key("n", "d", &t).encode();
    let expected: Vec<u8> = vec![
        1, 0, 0, b'n', 0, // namespace
        1, 0, 0, b'd', 0, // database
        1, 0, 0, b'p', 0, // table
        b'*', // existence tag
        1, 0, 0, b'1', 0, // id
    ];
    assert_eq!(bytes, expected);
}

#[test]
fn edge_key_encoding_bytes() {
    let t = Thing::new("p", "1");
    let fk = Thing::new("e", "");
    let bytes = edge_key("", "d", &t, Dir::Out, &fk).encode();
    let expected: Vec<u8> = vec![
        0, // empty namespace
        1, 0, 0, b'd', 0, // database
        1, 0, 0, b'p', 0, // table
        b'~', // adjacency tag
        1, 0, 0, b'1', 0, // id
        b'>', // direction
        1, 0, 0, b'e', 0, // peer table
        0, // empty peer id
    ];
    assert_eq!(bytes, expected);
}

#[test]
fn wide_characters_take_three_bytes() {
    let t = Thing::new("\u{1F600}", "\u{e9}");
    let bytes = thing_key("", "", &t).encode();
    let expected: Vec<u8> = vec![0, 0, 1, 0x01, 0xF6, 0x00, 0, b'*', 1, 0, 0, 0xE9, 0];
    assert_eq!(bytes, expected);
}

#[test]
fn distinct_keys_encode_differently() {
    let a = Thing::new("ab", "c");
    let b = Thing::new("a", "bc");
    assert_ne!(thing_key("n", "d", &a).encode(), thing_key("n", "d", &b).encode());
    let x = Thing::new("x", "1");
    assert_ne!(
        edge_key("n", "d", &x, Dir::In, &a).encode(),
        edge_key("n", "d", &x, Dir::Out, &a).encode()
    );
    assert_ne!(thing_key("n", "d", &x).encode(), edge_key("n", "d", &x, Dir::In, &a).encode());
}

#[test]
fn edge_prefix_groups_one_direction() {
    let x = Thing::new("person", "1");
    let peer = Thing::new("likes", "7");
    let other = Thing::new("likes", "8");
    let out_prefix = edge_prefix("n", "d", &x, Dir::Out);
    let in_prefix = edge_prefix("n", "d", &x, Dir::In);
    assert!(edge_key("n", "d", &x, Dir::Out, &peer).encode().starts_with(&out_prefix));
    assert!(edge_key("n", "d", &x, Dir::Out, &other).encode().starts_with(&out_prefix));
    assert!(!edge_key("n", "d", &x, Dir::In, &peer).encode().starts_with(&out_prefix));
    assert!(edge_key("n", "d", &x, Dir::In, &peer).encode().starts_with(&in_prefix));
    assert!(!thing_key("n", "d", &x).encode().starts_with(&out_prefix));
    let y = Thing::new("person", "10");
    assert!(!edge_key("n", "d", &y, Dir::Out, &peer).encode().starts_with(&out_prefix));
    assert_eq!(Dir::In.byte(), b'<');
    assert_eq!(Dir::Out.byte(), b'>');
}
