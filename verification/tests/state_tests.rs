use conreg::config_store::{ConfigEntry, UpsertPlan};
use conreg::namespace::{auth_namespace, check_delete_namespace, Namespace};
use conreg::state::{AppState, Command};

fn upsert(state: &mut AppState, ns: &str, id: &str, content: &str, now: i64, next_id: i64) {
    let plan = conreg::config_store::plan_upsert(
        state.configs.get_config(ns, id),
        ns,
        id,
        content,
        None,
        "yaml",
        now,
        next_id,
    );
    match plan {
        UpsertPlan::Unchanged => {}
        UpsertPlan::Insert(entry) => {
            state.apply_command(&Command::SetConfig { entry }, now as u64);
        }
        UpsertPlan::Update(entry) => {
            state.apply_command(&Command::UpdateConfig { entry }, now as u64);
        }
    }
}

#[test]
fn upsert_and_get_returns_content_and_md5() {
    let mut state = AppState::new(0);
    let content = "name: alice\nage: 3\n";
    upsert(&mut state, "public", "test.yaml", content, 1000, 1);
    let got = state.configs.get_config("public", "test.yaml").unwrap();
    assert_eq!(got.content, content);
    assert_eq!(got.md5, ConfigEntry::gen_md5(content));
    assert_eq!(got.md5, format!("{:x}", md5::compute(content)));
}

#[test]
fn md5_unchanged_upsert_is_a_noop() {
    let mut state = AppState::new(0);
    let content = "name: alice\nage: 3\n";
    upsert(&mut state, "public", "test.yaml", content, 1000, 1);
    // a second upsert of identical content replicates nothing and leaves
    // exactly one current row and one history row
    upsert(&mut state, "public", "test.yaml", content, 2000, 2);
    assert_eq!(state.configs.entries.len(), 1);
    assert_eq!(state.configs.history.len(), 1);
    // changed content updates in place and adds one history row
    upsert(&mut state, "public", "test.yaml", "name: alice\nage: 4\n", 3000, 3);
    assert_eq!(state.configs.entries.len(), 1);
    assert_eq!(state.configs.history.len(), 2);
    let got = state.configs.get_config("public", "test.yaml").unwrap();
    assert_eq!(got.id_, 1, "updates keep the base id");
    assert_eq!(got.create_time, 1000, "updates keep the creation time");
    assert_eq!(got.update_time, 3000);
}

#[test]
fn history_ids_are_base_plus_update_time() {
    let mut state = AppState::new(0);
    upsert(&mut state, "public", "test.yaml", "a: 1\n", 500, 7);
    assert_eq!(state.configs.history[0].id_, 7 + 500);
}

#[test]
fn replaying_a_command_changes_nothing() {
    let mut state = AppState::new(0);
    let entry = ConfigEntry {
        id_: 1,
        namespace_id: "public".to_string(),
        id: "test.yaml".to_string(),
        content: "a: 1\n".to_string(),
        create_time: 10,
        update_time: 10,
        description: None,
        format: "yaml".to_string(),
        md5: ConfigEntry::gen_md5("a: 1\n"),
    };
    let cmd = Command::SetConfig { entry };
    state.apply_command(&cmd, 10);
    let entries_before = state.configs.entries.len();
    let history_before = state.configs.history.len();
    state.apply_command(&cmd, 99);
    assert_eq!(state.configs.entries.len(), entries_before);
    assert_eq!(state.configs.history.len(), history_before);
    assert_eq!(state.configs.history[0].id_, 1 + 10);
}

#[test]
fn reserved_namespace_cannot_be_deleted() {
    assert!(check_delete_namespace("public").is_err());
    assert!(check_delete_namespace("other").is_ok());
    // the library itself produces the rejection envelope
    match conreg::state::plan_delete_namespace("public") {
        Err(answer) => {
            assert_eq!(answer.code, 1);
            assert!(answer.msg.contains("reserved"));
            assert!(answer.data.is_none());
        }
        Ok(_) => panic!("expected the rejection"),
    }
    match conreg::state::plan_delete_namespace("team") {
        Ok(Command::DeleteNamespace { id }) => assert_eq!(id, "team"),
        _ => panic!("expected the delete command"),
    }
    // even an applied delete of the reserved namespace is refused
    let mut state = AppState::new(0);
    upsert(&mut state, "public", "test.yaml", "a: 1\n", 10, 1);
    state.apply_command(
        &Command::DeleteNamespace { id: "public".to_string() },
        20,
    );
    assert!(state.namespaces.get_namespace("public").is_some());
    assert!(state.configs.get_config("public", "test.yaml").is_some());
}

#[test]
fn delete_namespace_cascades_to_its_configs() {
    let mut state = AppState::new(0);
    let ns = Namespace {
        id: "team".to_string(),
        name: "team".to_string(),
        description: None,
        is_auth: false,
        auth_token: None,
        create_time: 1,
        update_time: 1,
    };
    state.apply_command(&Command::UpsertNamespace { namespace: ns }, 1);
    upsert(&mut state, "team", "svc.yaml", "a: 1\n", 10, 1);
    state.apply_command(&Command::DeleteNamespace { id: "team".to_string() }, 20);
    assert!(state.namespaces.get_namespace("team").is_none());
    assert!(state.configs.get_config("team", "svc.yaml").is_none());
}

#[test]
fn namespace_token_gate() {
    let ns = Namespace {
        id: "sec".to_string(),
        name: "sec".to_string(),
        description: None,
        is_auth: true,
        auth_token: Some("T".to_string()),
        create_time: 1,
        update_time: 1,
    };
    assert!(auth_namespace(Some(&ns), Some(&"T".to_string())));
    assert!(!auth_namespace(Some(&ns), Some(&"other".to_string())));
    assert!(!auth_namespace(Some(&ns), None));
    // a namespace that does not require auth admits anyone
    let open_ns = Namespace { is_auth: false, ..ns };
    assert!(auth_namespace(Some(&open_ns), None));
    // an unknown namespace does not block the read
    assert!(auth_namespace(None, None));
}

#[test]
fn recovery_restores_a_history_row() {
    let mut state = AppState::new(0);
    upsert(&mut state, "public", "test.yaml", "a: 1\n", 10, 1);
    upsert(&mut state, "public", "test.yaml", "a: 2\n", 20, 2);
    // the first version lives on under history id base + update time
    let plan = state.configs.plan_recover(1 + 10, 30, 3).unwrap();
    match plan {
        UpsertPlan::Update(entry) => {
            assert_eq!(entry.content, "a: 1\n");
            assert_eq!(entry.id_, 1, "recovery keeps the base id");
            state.apply_command(&Command::UpdateConfig { entry }, 30);
        }
        _ => panic!("expected an update plan"),
    }
    let got = state.configs.get_config("public", "test.yaml").unwrap();
    assert_eq!(got.content, "a: 1\n");
    assert!(state.configs.plan_recover(999, 30, 3).is_err());
}

#[test]
fn kv_write_and_delete_report_values() {
    let mut state = AppState::new(0);
    let r = state.apply_command(
        &Command::Put { key: "k".to_string(), value: "v".to_string() },
        1,
    );
    assert_eq!(r.value.as_deref(), Some("v"));
    let r = state.apply_command(&Command::Delete { key: "k".to_string() }, 2);
    assert_eq!(r.value.as_deref(), Some("v"));
    let r = state.apply_command(&Command::Delete { key: "k".to_string() }, 3);
    assert!(r.value.is_none());
}
