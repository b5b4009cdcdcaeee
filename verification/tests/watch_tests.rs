use shiroa::meta::ChapterItem;
use shiroa::snapshot::SnapshotStore;
use shiroa::watch::{
    normalize_path, select_chapters, ActiveRegistry, BuildOrchestrator, RebuildScope, WatchEvent,
};

fn chapters() -> Vec<ChapterItem> {
    vec![
        ChapterItem { title: String::from("A"), path: Some(String::from("a.typ")) },
        ChapterItem { title: String::from("B"), path: Some(String::from("b.typ")) },
        ChapterItem { title: String::from("Part"), path: None },
        ChapterItem { title: String::from("C"), path: Some(String::from("c.typ")) },
    ]
}

#[test]
fn idempotent_heartbeat() {
    // Two holds make one entry with count two; neither hold beyond the
    // first changes membership; two releases are needed to drop it.
    let mut reg = ActiveRegistry::new();
    let p = String::from("a.typ");
    assert!(reg.hold(&p, true));
    assert!(!reg.hold(&p, true));
    assert_eq!(reg.count_of(&p), 2);
    assert!(!reg.hold(&p, false));
    assert_eq!(reg.count_of(&p), 1);
    assert!(reg.hold(&p, false));
    assert_eq!(reg.count_of(&p), 0);
}

#[test]
fn release_of_unknown_path_is_ignored() {
    let mut reg = ActiveRegistry::new();
    assert!(!reg.hold(&String::from("zz"), false));
    assert_eq!(reg.count_of(&String::from("zz")), 0);
}

#[test]
fn reload_suppressed_for_pure_heartbeat() {
    let mut orch = BuildOrchestrator::new(chapters(), true);
    let first = orch.handle_event(&WatchEvent::HoldPath(String::from("a.typ"), true));
    assert!(first.reload, "a membership transition reloads");
    assert!(matches!(first.scope, RebuildScope::Active(_)));
    let heartbeat = orch.handle_event(&WatchEvent::HoldPath(String::from("a.typ"), true));
    assert!(!heartbeat.reload, "a pure heartbeat never reloads");
    assert!(matches!(heartbeat.scope, RebuildScope::Skip));
}

#[test]
fn filesystem_event_rebuilds_all_despite_active_set() {
    let mut orch = BuildOrchestrator::new(chapters(), true);
    orch.handle_event(&WatchEvent::HoldPath(String::from("a.typ"), true));
    let out = orch.handle_event(&WatchEvent::FilesystemChange(vec![String::from("a.typ")]));
    assert!(out.reload);
    assert!(out.evict, "metadata-driven mode evicts caches");
    assert!(matches!(out.scope, RebuildScope::Full));
    let all = select_chapters(&chapters(), &out.scope);
    assert_eq!(all, vec![
        String::from("a.typ"),
        String::from("b.typ"),
        String::from("c.typ"),
    ]);
}

#[test]
fn hold_transition_rebuilds_only_active_paths() {
    let mut orch = BuildOrchestrator::new(chapters(), false);
    let out = orch.handle_event(&WatchEvent::HoldPath(String::from("b.typ"), true));
    assert!(out.reload);
    assert!(!out.evict);
    match &out.scope {
        RebuildScope::Active(act) => {
            assert_eq!(act, &vec![String::from("b.typ")]);
        },
        _ => panic!("expected a filtered rebuild"),
    }
    let sel = select_chapters(&chapters(), &out.scope);
    assert_eq!(sel, vec![String::from("b.typ")]);
}

#[test]
fn filesystem_event_advances_revision() {
    let mut orch = BuildOrchestrator::new(chapters(), false);
    let r0 = orch.snapshots.snapshot().revision;
    orch.handle_event(&WatchEvent::FilesystemChange(Vec::new()));
    let r1 = orch.snapshots.snapshot().revision;
    assert_eq!(r1, r0 + 1);
}

#[test]
fn normalize_root_aliases_first_chapter() {
    let first = Some(String::from("a.typ"));
    assert_eq!(normalize_path(&String::from("/"), &first), Some(String::from("a.typ")));
    assert_eq!(normalize_path(&String::from(""), &first), Some(String::from("a.typ")));
    assert_eq!(normalize_path(&String::from("/"), &None), None);
}

#[test]
fn normalize_maps_rendered_path_to_source() {
    assert_eq!(
        normalize_path(&String::from("/guide/x.html"), &None),
        Some(String::from("guide/x.typ"))
    );
    assert_eq!(normalize_path(&String::from("y.typ"), &None), Some(String::from("y.typ")));
    assert_eq!(normalize_path(&String::from("a.b.html"), &None), Some(String::from("a.b.typ")));
}

#[test]
fn snapshot_store_eviction_window() {
    let mut st = SnapshotStore::new();
    for _ in 0..15 {
        st.invalidate(&Vec::new());
    }
    st.evict(10);
    assert!(st.is_retained(5));
    assert!(st.is_retained(15));
    assert!(!st.is_retained(4));
    assert!(!st.is_retained(16));
    // The floor never moves backwards.
    st.evict(100);
    assert!(!st.is_retained(4));
}

#[test]
fn dependencies_are_replaced_whole() {
    let mut st = SnapshotStore::new();
    st.set_dependencies(vec![String::from("a"), String::from("b")]);
    assert_eq!(st.dependencies(), vec![String::from("a"), String::from("b")]);
    st.set_dependencies(vec![String::from("c")]);
    assert_eq!(st.dependencies(), vec![String::from("c")]);
}
