use cc_switch::clock::unix_timestamp;
use cc_switch::session_binding::{AppError, BindingRow, Database, ProviderRow};

fn row(session: &str, app: &str, provider: &str, seen: i64, count: i64) -> BindingRow {
    BindingRow {
        session_id: session.to_string(),
        app_type: app.to_string(),
        provider_id: provider.to_string(),
        bound_at: 1,
        last_seen_at: seen,
        request_count: count,
    }
}

fn provider(id: &str, app: &str, queued: i64) -> ProviderRow {
    ProviderRow {
        id: id.to_string(),
        app_type: app.to_string(),
        in_failover_queue: queued,
    }
}

fn sessions(db: &Database) -> Vec<String> {
    db.binding_rows()
        .iter()
        .map(|row| row.session_id.clone())
        .collect()
}

#[test]
fn test_session_binding_crud() {
    let mut db = Database::new();
    let app_type = "desktop";

    // create
    db.upsert_session_binding("session-1", app_type, "provider-1")
        .unwrap();

    // read
    let fetched = db.get_session_binding("session-1").unwrap().unwrap();
    assert_eq!(fetched.provider_id, "provider-1");
    assert_eq!(fetched.request_count, 1);

    // update (the same session sends another request)
    db.upsert_session_binding("session-1", app_type, "provider-1")
        .unwrap();
    let updated = db.get_session_binding("session-1").unwrap().unwrap();
    assert_eq!(updated.request_count, 2);

    // list
    let list = db.list_session_bindings_for_app(app_type).unwrap();
    assert_eq!(list.len(), 1);

    // delete
    db.remove_session_binding("session-1").unwrap();
    assert!(db.get_session_binding("session-1").unwrap().is_none());
}

#[test]
fn first_provider_keeps_the_session() {
    let mut db = Database::new();
    db.upsert_session_binding_at("s", "desktop", "p1", 10).unwrap();
    db.upsert_session_binding_at("other", "desktop", "p3", 11).unwrap();
    db.upsert_session_binding_at("s", "codex", "p2", 12).unwrap();
    db.upsert_session_binding_at("s", "desktop", "p2", 9).unwrap();
    let binding = db.get_session_binding("s").unwrap().unwrap();
    assert_eq!(binding.session_id, "s");
    assert_eq!(binding.app_type, "desktop");
    assert_eq!(binding.provider_id, "p1");
    assert_eq!(binding.bound_at, 10);
    assert_eq!(binding.last_seen_at, 9);
    assert_eq!(binding.request_count, 3);
    let other = db.get_session_binding("other").unwrap().unwrap();
    assert_eq!(other.request_count, 1);
    assert_eq!(other.last_seen_at, 11);
}

#[test]
fn removed_session_is_bound_anew() {
    let mut db = Database::new();
    db.upsert_session_binding_at("s", "desktop", "p1", 10).unwrap();
    db.upsert_session_binding_at("t", "desktop", "p1", 10).unwrap();
    db.remove_session_binding("s").unwrap();
    db.remove_session_binding("s").unwrap();
    db.remove_session_binding("unknown").unwrap();
    assert_eq!(sessions(&db), vec!["t"]);
    db.upsert_session_binding_at("s", "desktop", "p2", 20).unwrap();
    let binding = db.get_session_binding("s").unwrap().unwrap();
    assert_eq!(binding.provider_id, "p2");
    assert_eq!(binding.request_count, 1);
}

#[test]
fn removal_undoes_the_requests_of_a_session() {
    let rows = vec![row("a", "desktop", "p", 1, 4), row("b", "codex", "q", 2, 5)];
    let mut db = Database::from_rows(rows, vec![]).unwrap();
    for at in 3..6 {
        db.upsert_session_binding_at("s", "desktop", "p", at).unwrap();
    }
    db.remove_session_binding("s").unwrap();
    assert_eq!(sessions(&db), vec!["a", "b"]);
    let kept = db.get_session_binding("a").unwrap().unwrap();
    assert_eq!((kept.last_seen_at, kept.request_count), (1, 4));
}

#[test]
fn clearing_an_app_leaves_the_others() {
    let rows = vec![
        row("a", "desktop", "p", 1, 1),
        row("b", "codex", "p", 2, 1),
        row("c", "desktop", "q", 3, 1),
        row("d", "gemini", "p", 4, 1),
    ];
    let mut db = Database::from_rows(rows, vec![]).unwrap();
    assert_eq!(db.clear_session_bindings_for_app("desktop").unwrap(), 2);
    assert_eq!(sessions(&db), vec!["b", "d"]);
    assert_eq!(db.clear_session_bindings_for_app("desktop").unwrap(), 0);
    assert!(db.get_session_binding("a").unwrap().is_none());
    assert!(db.list_session_bindings_for_app("desktop").unwrap().is_empty());
    assert_eq!(db.list_session_bindings_for_app("codex").unwrap().len(), 1);
}

#[test]
fn cleanup_keeps_bindings_to_queued_providers() {
    let rows = vec![
        row("kept", "desktop", "p1", 1, 1),
        row("not queued", "desktop", "p2", 2, 1),
        row("no provider", "desktop", "p3", 3, 1),
        row("other app", "codex", "p1", 4, 1),
        row("queued wrongly", "desktop", "p4", 5, 1),
    ];
    let providers = vec![
        provider("p1", "desktop", 1),
        provider("p2", "desktop", 0),
        provider("p4", "desktop", 2),
    ];
    let mut db = Database::from_rows(rows, providers).unwrap();
    assert_eq!(db.cleanup_orphaned_session_bindings().unwrap(), 4);
    assert_eq!(sessions(&db), vec!["kept"]);
    assert_eq!(db.cleanup_orphaned_session_bindings().unwrap(), 0);
}

#[test]
fn list_has_the_latest_first() {
    let rows = vec![
        row("old", "desktop", "p", 1, 1),
        row("tie one", "desktop", "p", 5, 1),
        row("foreign", "codex", "p", 9, 1),
        row("new", "desktop", "p", 7, 1),
        row("tie two", "desktop", "p", 5, 1),
    ];
    let db = Database::from_rows(rows, vec![]).unwrap();
    let list = db.list_session_bindings_for_app("desktop").unwrap();
    let names: Vec<&str> = list.iter().map(|b| b.session_id.as_str()).collect();
    assert_eq!(names, vec!["new", "tie one", "tie two", "old"]);
    for listed in &list {
        let found = db.get_session_binding(&listed.session_id).unwrap().unwrap();
        assert_eq!(found.last_seen_at, listed.last_seen_at);
        assert_eq!(found.app_type, "desktop");
    }
    assert!(db.list_session_bindings_for_app("none").unwrap().is_empty());
}

#[test]
fn list_has_every_binding_of_the_app() {
    let rows: Vec<BindingRow> = (0..620)
        .map(|i| row(&format!("s{i}"), "desktop", "p", (i * 37) % 620, 1))
        .collect();
    let db = Database::from_rows(rows, vec![]).unwrap();
    let list = db.list_session_bindings_for_app("desktop").unwrap();
    assert_eq!(list.len(), 620);
    for (i, binding) in list.iter().enumerate() {
        assert_eq!(binding.last_seen_at, 619 - i as i64);
    }
}

#[test]
fn count_that_does_not_fit_is_an_error() {
    let most = u32::MAX as i64;
    let rows = vec![
        row("full", "desktop", "p", 1, most),
        row("negative", "codex", "p", 2, -1),
        row("endless", "gemini", "p", 3, i64::MAX),
    ];
    let mut db = Database::from_rows(rows, vec![]).unwrap();
    assert_eq!(
        db.get_session_binding("full").unwrap().unwrap().request_count,
        u32::MAX
    );
    db.upsert_session_binding_at("full", "desktop", "p", 4).unwrap();
    assert_eq!(
        db.get_session_binding("full").unwrap_err(),
        AppError::RequestCountOutOfRange { value: most + 1 }
    );
    assert_eq!(
        db.list_session_bindings_for_app("desktop").unwrap_err(),
        AppError::RequestCountOutOfRange { value: most + 1 }
    );
    assert_eq!(
        db.get_session_binding("negative").unwrap_err(),
        AppError::RequestCountOutOfRange { value: -1 }
    );
    db.upsert_session_binding_at("endless", "gemini", "p", 5).unwrap();
    assert_eq!(
        db.list_session_bindings_for_app("gemini").unwrap_err(),
        AppError::RequestCountOutOfRange { value: i64::MAX }
    );
}

#[test]
fn list_reports_the_first_row_that_cannot_be_read() {
    let rows = vec![
        row("a", "desktop", "p", 1, -7),
        row("b", "desktop", "p", 3, 1),
        row("c", "desktop", "p", 2, -8),
    ];
    let db = Database::from_rows(rows, vec![]).unwrap();
    assert_eq!(
        db.list_session_bindings_for_app("desktop").unwrap_err(),
        AppError::RequestCountOutOfRange { value: -8 }
    );
}

#[test]
fn a_session_has_one_row() {
    let rows = vec![row("a", "desktop", "p", 1, 1), row("a", "codex", "q", 2, 1)];
    assert!(Database::from_rows(rows, vec![]).is_none());
}

#[test]
fn unix_now_is_the_system_time() {
    let before = std::time::SystemTime::now()
        .duration_since(std::time::UNIX_EPOCH)
        .unwrap()
        .as_secs() as i64;
    let now = Database::unix_now();
    assert!(before <= now && now <= before + 5);
    let mut db = Database::new();
    db.upsert_session_binding("s", "desktop", "p").unwrap();
    let binding = db.get_session_binding("s").unwrap().unwrap();
    assert!(now <= binding.bound_at && binding.bound_at <= now + 5);
    assert_eq!(binding.bound_at, binding.last_seen_at);
}

#[test]
fn unix_timestamp_of_a_reading() {
    assert_eq!(unix_timestamp(Some(1_700_000_000)), 1_700_000_000);
    assert_eq!(unix_timestamp(None), 0);
    assert_eq!(unix_timestamp(Some(u64::MAX)), -1);
}
