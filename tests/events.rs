use hypr_some_events::events::{active_workspace_frame, should_emit, submap_line, workspaces_frame, EventKind};
use hypr_some_events::record::{Record, Value};

const STRUCTURAL: [EventKind; 4] = [
    EventKind::WorkspaceChanged,
    EventKind::WorkspaceAdded,
    EventKind::WorkspaceMoved,
    EventKind::WorkspaceDestroyed,
];

fn ws(id: i64) -> Record {
    let mut r = Record::new();
    r.insert(String::from("id"), Value::Int(id));
    r
}

#[test]
fn same_active_workspace_is_not_emitted_again() {
    assert!(!should_emit(Some(2), 2, EventKind::ActiveWindowChanged));
    assert!(should_emit(Some(2), 3, EventKind::ActiveWindowChanged));
    assert!(!should_emit(Some(2), 2, EventKind::MonitorChanged));
    assert!(should_emit(None, 2, EventKind::MonitorChanged));
}

#[test]
fn structural_events_always_emit() {
    for kind in STRUCTURAL {
        assert!(kind.forces_emit());
        assert!(should_emit(Some(2), 2, kind));
        assert!(should_emit(Some(2), 3, kind));
        assert!(should_emit(None, 2, kind));
    }
    assert!(!EventKind::ActiveWindowChanged.forces_emit());
}

#[test]
fn workspaces_frame_suppresses_repeat_and_keeps_id() {
    let live = vec![ws(1), ws(2)];
    let f = workspaces_frame(Some(2), EventKind::ActiveWindowChanged, Some(2), &live, None);
    assert_eq!(f.line, None);
    assert_eq!(f.keep, Some(2));
    let f = workspaces_frame(Some(2), EventKind::WorkspaceAdded, Some(2), &live, None);
    assert_eq!(
        f.line,
        Some(String::from("[{\"id\":1,\"num\":1,\"focused\":false},{\"id\":2,\"num\":2,\"focused\":true}]"))
    );
}

#[test]
fn workspaces_frame_failed_lookup_uses_zero() {
    let live = vec![ws(1)];
    let f = workspaces_frame(Some(0), EventKind::ActiveWindowChanged, None, &live, None);
    assert_eq!(f.keep, Some(0));
    assert_eq!(f.line, Some(String::from("[{\"id\":1,\"num\":1,\"focused\":false}]")));
}

#[test]
fn workspaces_frame_empty_snapshot_prints_nothing() {
    let f = workspaces_frame(None, EventKind::WorkspaceChanged, Some(1), &vec![], None);
    assert_eq!(f.line, None);
    assert_eq!(f.keep, None);
    let f = workspaces_frame(Some(1), EventKind::WorkspaceAdded, Some(2), &vec![], None);
    assert_eq!(f.line, None);
    assert_eq!(f.keep, Some(1));
}

#[test]
fn workspaces_frame_with_template() {
    let tpl = vec![ws(1)];
    let f = workspaces_frame(None, EventKind::ActiveWindowChanged, Some(1), &vec![], Some(&tpl));
    assert_eq!(f.line, Some(String::from("[{\"id\":1,\"num\":1,\"active\":false,\"focused\":true}]")));
}

#[test]
fn active_workspace_frame_prints_bare_id() {
    let f = active_workspace_frame(None, EventKind::ActiveWindowChanged, Some(4));
    assert_eq!(f.line, Some(String::from("4")));
    assert_eq!(f.keep, Some(4));
    let f = active_workspace_frame(Some(4), EventKind::ActiveWindowChanged, Some(4));
    assert_eq!(f.line, None);
    assert_eq!(f.keep, Some(4));
    let f = active_workspace_frame(Some(4), EventKind::WorkspaceMoved, Some(4));
    assert_eq!(f.line, Some(String::from("4")));
    let f = active_workspace_frame(None, EventKind::MonitorChanged, Some(-98));
    assert_eq!(f.line, Some(String::from("-98")));
}

#[test]
fn active_workspace_frame_failed_lookup_prints_zero() {
    let f = active_workspace_frame(Some(3), EventKind::ActiveWindowChanged, None);
    assert_eq!(f.line, Some(String::from("0")));
    assert_eq!(f.keep, Some(0));
}

#[test]
fn submap_names() {
    assert_eq!(submap_line(&String::new()), "{\"name\":\"default\"}");
    assert_eq!(submap_line(&String::from("resize")), "{\"name\":\"resize\"}");
    assert_eq!(submap_line(&String::from("a\"b")), "{\"name\":\"a\\\"b\"}");
    assert_eq!(submap_line(&String::from("t\u{1}\n\u{e9}")), "{\"name\":\"t\\u0001\\n\u{e9}\"}");
}
