use pistachio_dictionary::error::AppError;
use pistachio_dictionary::sync::connector::{sync_url, Connector, OpResult};
use pistachio_dictionary::sync::engine::{
    apply_result, attempts_exhausted, begin_sync, get_sync_settings, nothing_to_sync,
    set_sync_settings, sync_report, ApplyAction, SyncTally, Table, BATCH_SIZE, MAX_ATTEMPTS,
};
use pistachio_dictionary::sync::SyncOp;

fn op(id: &str, entity: &str) -> SyncOp {
    SyncOp {
        id: id.to_string(),
        entity: entity.to_string(),
        entity_id: format!("{id}-e"),
        op: "create".to_string(),
        payload: "{}".to_string(),
        queued_at: "2024-01-01T00:00:00+00:00".to_string(),
    }
}

fn ok(id: &str, remote: Option<&str>) -> OpResult {
    OpResult { op_id: id.into(), outcome: Ok(remote.map(str::to_string)) }
}

fn err(id: &str, m: &str) -> OpResult {
    OpResult { op_id: id.into(), outcome: Err(m.into()) }
}

#[test]
fn new_ops_get_fresh_ids() {
    let a = SyncOp::new("list", "L1", "create", "{\"id\":\"L1\"}".into());
    let b = SyncOp::new("list", "L1", "create", "{}".into());
    assert_eq!(a.entity, "list");
    assert_eq!(a.entity_id, "L1");
    assert_eq!(a.op, "create");
    assert_eq!(a.payload, "{\"id\":\"L1\"}");
    assert_ne!(a.id, b.id);
    assert_eq!(uuid::Uuid::parse_str(&a.id).unwrap().get_version_num(), 4);
}

#[test]
fn connector_selection() {
    assert_eq!(Connector::from_settings("", "t"), Connector::Mock);
    assert_eq!(Connector::from_settings("  mock  ", "t"), Connector::Mock);
    assert_eq!(Connector::from_settings("mock/", "t"), Connector::Mock);
    assert_eq!(Connector::from_settings("mock://dev", "t"), Connector::Mock);
    assert_eq!(Connector::from_settings("mock://", "t"), Connector::Mock);
    assert_eq!(Connector::from_settings("  mock:/// ", "t"), Connector::Mock);
    assert_eq!(Connector::from_settings("///", "t"), Connector::Mock);
    assert_eq!(
        Connector::from_settings(" https://bq.example.com/// ", "tok"),
        Connector::Bingqilin { base_url: "https://bq.example.com".into(), token: "tok".into() }
    );
    assert_eq!(
        Connector::from_settings("mockery.io", "tok"),
        Connector::Bingqilin { base_url: "mockery.io".into(), token: "tok".into() }
    );
    assert_eq!(sync_url("https://bq.example.com"), "https://bq.example.com/api/v1/sync");
}

#[test]
fn mock_connector_acknowledges_every_op() {
    let a = SyncOp::new("list", "L1", "create", "{}".into());
    let ops = vec![a.clone(), op("abc", "item"), op("é12345678", "item")];
    let results = Connector::mock_results(&ops);
    assert_eq!(results.len(), 3);
    assert_eq!(results[0].op_id, a.id);
    assert_eq!(results[0].outcome, Ok(Some(format!("mock-{}", &a.id[..8]))));
    assert_eq!(results[1].outcome, Ok(Some("mock-abc".into())));
    assert_eq!(results[2].outcome, Ok(Some("mock-é123456".into())));
}

#[test]
fn wire_rows_become_results() {
    assert_eq!(
        OpResult::from_wire("1".into(), "ok".into(), Some("r1".into()), None),
        ok("1", Some("r1"))
    );
    assert_eq!(
        OpResult::from_wire("2".into(), "error".into(), None, Some("bad list".into())),
        err("2", "bad list")
    );
    assert_eq!(OpResult::from_wire("3".into(), "conflict".into(), None, None), err("3", "status conflict"));
    assert_eq!(OpResult::from_wire("4".into(), "ok".into(), None, Some("ignored".into())), ok("4", None));
}

#[test]
fn settings_view_and_update() {
    let v = get_sync_settings(None, Some(String::new()), 3, Some(String::new()), Some("boom".into()));
    assert_eq!(v.server_url, "");
    assert!(!v.has_token);
    assert_eq!(v.pending_ops, 3);
    assert_eq!(v.last_sync_at, None);
    assert_eq!(v.last_error, Some("boom".into()));
    let v = get_sync_settings(Some("u".into()), Some("t".into()), 0, Some("2024".into()), None);
    assert!(v.has_token);
    assert_eq!(v.last_sync_at, Some("2024".into()));
    let u = set_sync_settings("  https://x  ", Some(String::new()));
    assert_eq!(u.server_url, "https://x");
    assert_eq!(u.auth_token, None);
    assert_eq!(set_sync_settings("", Some("tok".into())).auth_token, Some("tok".into()));
    assert_eq!(set_sync_settings("", None).auth_token, None);
}

#[test]
fn begin_sync_decisions() {
    assert_eq!(begin_sync(&vec![], "", ""), Ok(None));
    assert_eq!(begin_sync(&vec![op("a", "list")], "  ", "t"), Err(AppError::SyncNotConfigured));
    assert_eq!(begin_sync(&vec![op("a", "list")], "mock", "t"), Ok(Some(Connector::Mock)));
    let r = nothing_to_sync(4);
    assert_eq!((r.pushed, r.failed, r.pending), (0, 0, 4));
    assert_eq!(r.message, "Nothing to sync");
    assert!(r.synced_at.is_some());
    assert_eq!(BATCH_SIZE, 100);
}

#[test]
fn applying_results() {
    let l = op("a", "list");
    let i = op("b", "item");
    let x = op("c", "setting");
    assert_eq!(
        apply_result(&l, &ok("a", Some("r"))),
        ApplyAction::Synced { table: Table::Lists, remote_id: Some("r".into()) }
    );
    assert_eq!(apply_result(&i, &err("b", "e")), ApplyAction::Failed { table: Table::ListItems });
    assert_eq!(apply_result(&x, &ok("c", None)), ApplyAction::Skip);
    assert_eq!(Table::Lists.name(), "lists");
    assert_eq!(Table::ListItems.name(), "list_items");
    assert_eq!(MAX_ATTEMPTS, 5);
    assert!(!attempts_exhausted(4));
    assert!(attempts_exhausted(5));
    assert!(attempts_exhausted(6));
}

#[test]
fn tally_and_report() {
    let ops = vec![op("a", "list"), op("b", "item"), op("a", "item")];
    let results = vec![ok("a", Some("r")), err("zz", "unknown op"), err("b", "rejected"), ok("q", None)];
    let t = SyncTally::new(&ops, &results);
    assert_eq!(t.matches, vec![Some(0), None, Some(1), None]);
    assert_eq!((t.pushed, t.failed), (1, 1));
    assert_eq!(t.last_error, Some("unknown op".into()));
    assert_eq!(t.last_error_state(), "unknown op");
    let r = sync_report(t, 2);
    assert_eq!(r.message, "Synced 1, 1 failed: unknown op");
    assert_eq!((r.pushed, r.failed, r.pending), (1, 1, 2));

    let t = SyncTally::new(&ops, &vec![ok("a", None), ok("b", None)]);
    assert_eq!(t.last_error_state(), "");
    assert_eq!(sync_report(t, 0).message, "Synced 2 change(s)");
}
