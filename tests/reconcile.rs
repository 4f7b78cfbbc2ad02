use hypr_some_events::reconcile::{live_view, merge_into, persistent_view, reconcile, sort_records};
use hypr_some_events::record::{Record, Value};
use hypr_some_events::render::{emit_line, view_json};

fn record(entries: Vec<(&str, Value)>) -> Record {
    let mut r = Record::new();
    for (k, v) in entries {
        r.insert(String::from(k), v);
    }
    r
}

fn ws(id: i64) -> Record {
    record(vec![("id", Value::Int(id))])
}

fn ids(v: &Vec<Record>) -> Vec<Option<i64>> {
    v.iter().map(|r| r.id()).collect()
}

fn field<'a>(r: &'a Record, k: &str) -> Option<&'a Value> {
    r.get(&String::from(k))
}

#[test]
fn live_mode_sorts_ascending_by_id() {
    let live = vec![ws(3), ws(1), ws(2)];
    let out = live_view(&live, 2);
    assert_eq!(ids(&out), vec![Some(1), Some(2), Some(3)]);
    for r in &out {
        let id = r.id().unwrap();
        assert_eq!(field(r, "num"), Some(&Value::Int(id)));
        assert_eq!(field(r, "focused"), Some(&Value::Bool(id == 2)));
    }
}

#[test]
fn live_mode_sort_is_stable_and_keeps_records_without_id() {
    let a = record(vec![("id", Value::Int(2)), ("name", Value::Text(String::from("a")))]);
    let b = record(vec![("id", Value::Int(2)), ("name", Value::Text(String::from("b")))]);
    let no_id = record(vec![("name", Value::Text(String::from("x")))]);
    let out = live_view(&vec![a, ws(1), no_id, b], 0);
    assert_eq!(ids(&out), vec![None, Some(1), Some(2), Some(2)]);
    assert_eq!(out[0], record(vec![("name", Value::Text(String::from("x")))]));
    assert_eq!(field(&out[2], "name"), Some(&Value::Text(String::from("a"))));
    assert_eq!(field(&out[3], "name"), Some(&Value::Text(String::from("b"))));
}

#[test]
fn live_mode_negative_and_large_ids() {
    let out = live_view(&vec![ws(i64::MAX), ws(-5), ws(0)], -5);
    assert_eq!(ids(&out), vec![Some(-5), Some(0), Some(i64::MAX)]);
    assert_eq!(field(&out[0], "focused"), Some(&Value::Bool(true)));
}

#[test]
fn sort_keeps_every_record() {
    let live = vec![ws(9), ws(4), ws(4), ws(7)];
    let sorted = sort_records(&live);
    assert_eq!(ids(&sorted), vec![Some(4), Some(4), Some(7), Some(9)]);
}

#[test]
fn persistent_mode_keeps_template_order_and_drops_entries_without_id() {
    let tpl = vec![ws(5), record(vec![("name", Value::Text(String::from("n")))]), ws(2), ws(9)];
    let live = vec![ws(2), ws(5)];
    let out = persistent_view(&live, &tpl, 9);
    assert_eq!(out.len(), 3);
    assert_eq!(ids(&out), vec![Some(5), Some(2), Some(9)]);
    assert_eq!(field(&out[0], "active"), Some(&Value::Bool(true)));
    assert_eq!(field(&out[1], "active"), Some(&Value::Bool(true)));
    assert_eq!(field(&out[2], "active"), Some(&Value::Bool(false)));
    assert_eq!(field(&out[2], "focused"), Some(&Value::Bool(true)));
}

#[test]
fn persistent_mode_duplicate_template_ids_each_produce_an_entry() {
    let out = persistent_view(&vec![], &vec![ws(1), ws(1)], 0);
    assert_eq!(ids(&out), vec![Some(1), Some(1)]);
}

#[test]
fn merge_live_value_wins() {
    let tpl = vec![record(vec![("id", Value::Int(1)), ("name", Value::Text(String::from("a")))])];
    let live = vec![record(vec![
        ("id", Value::Int(1)),
        ("name", Value::Text(String::from("b"))),
        ("windows", Value::Int(3)),
    ])];
    let out = persistent_view(&live, &tpl, 1);
    assert_eq!(out.len(), 1);
    let e = &out[0];
    assert_eq!(field(e, "id"), Some(&Value::Int(1)));
    assert_eq!(field(e, "name"), Some(&Value::Text(String::from("b"))));
    assert_eq!(field(e, "windows"), Some(&Value::Int(3)));
    assert_eq!(field(e, "num"), Some(&Value::Int(1)));
    assert_eq!(field(e, "active"), Some(&Value::Bool(true)));
    assert_eq!(field(e, "focused"), Some(&Value::Bool(true)));
    assert_eq!(e.fields.len(), 6);
}

#[test]
fn merge_into_overwrites_in_place_and_appends() {
    let mut base = record(vec![("a", Value::Int(1)), ("b", Value::Int(2))]);
    let over = record(vec![("b", Value::Null), ("c", Value::Raw(String::from("[1,2]")))]);
    merge_into(&mut base, &over);
    assert_eq!(
        base,
        record(vec![("a", Value::Int(1)), ("b", Value::Null), ("c", Value::Raw(String::from("[1,2]")))])
    );
}

#[test]
fn end_to_end_persistent_scenario() {
    let tpl = vec![ws(1), ws(3)];
    let live = vec![record(vec![("id", Value::Int(3)), ("name", Value::Text(String::from("web")))])];
    let out = reconcile(&live, Some(&tpl), 3);
    assert_eq!(
        view_json(&out),
        "[{\"id\":1,\"num\":1,\"active\":false,\"focused\":false},{\"id\":3,\"name\":\"web\",\"num\":3,\"active\":true,\"focused\":true}]"
    );
}

#[test]
fn reconciling_twice_gives_identical_text() {
    let tpl = vec![ws(2), ws(1)];
    let live = vec![ws(1), record(vec![("id", Value::Int(2)), ("monitor", Value::Text(String::from("DP-1")))])];
    let a = view_json(&reconcile(&live, Some(&tpl), 1));
    let b = view_json(&reconcile(&live, Some(&tpl), 1));
    assert_eq!(a, b);
    let c = view_json(&reconcile(&live, None, 1));
    let d = view_json(&reconcile(&live, None, 1));
    assert_eq!(c, d);
}

#[test]
fn live_mode_reconciled_again_is_unchanged() {
    let live = vec![ws(4), ws(2), record(vec![("name", Value::Null)])];
    let once = live_view(&live, 4);
    let twice = live_view(&once, 4);
    assert_eq!(once, twice);
}

#[test]
fn empty_live_snapshot_emits_nothing() {
    let out = live_view(&vec![], 1);
    assert!(out.is_empty());
    assert_eq!(emit_line(&out), None);
}

#[test]
fn json_text_of_values() {
    let r = record(vec![
        ("id", Value::Int(-12)),
        ("name", Value::Text(String::from("a\"b\\c"))),
        ("lastwindow", Value::Null),
        ("ratio", Value::Raw(String::from("1.5"))),
        ("hasfullscreen", Value::Bool(false)),
    ]);
    assert_eq!(
        view_json(&vec![r]),
        "[{\"id\":-12,\"name\":\"a\\\"b\\\\c\",\"lastwindow\":null,\"ratio\":1.5,\"hasfullscreen\":false}]"
    );
    assert_eq!(emit_line(&vec![Record::new()]), Some(String::from("[{}]")));
}
