use conreg::config_store::watch_match;
use conreg::discovery::HeartbeatResult;
use conreg::envelope::Res;
use conreg::parse::parse_yaml;
use conreg::sdk::{
    extract_content, heartbeat_reaction, heartbeat_result_from_wire, watch_response_action,
    AppDiscovery, HeartbeatAction, WatchAction,
};
use conreg::text::{str_eq, u64_to_string};

#[test]
fn envelopes_carry_their_code() {
    let ok: Res<u32> = Res::success(7);
    assert_eq!(ok.code, 0);
    assert!(ok.is_success());
    assert_eq!(ok.data, Some(7));
    let err: Res<u32> = Res::error("boom");
    assert_eq!(err.code, 1);
    assert!(!err.is_success());
    assert_eq!(err.msg, "boom");
    assert!(err.data.is_none());
}

#[test]
fn watch_answers_only_its_namespace() {
    assert_eq!(
        watch_match("public", "test.yaml", "public").as_deref(),
        Some("test.yaml")
    );
    assert!(watch_match("other", "test.yaml", "public").is_none());
}

#[test]
fn watch_actions() {
    assert!(matches!(
        watch_response_action(Some("test.yaml".to_string())),
        WatchAction::RefetchAll(id) if id == "test.yaml"
    ));
    assert!(matches!(watch_response_action(None), WatchAction::Repoll));
}

#[test]
fn heartbeat_wire_results_and_reactions() {
    assert!(matches!(
        heartbeat_result_from_wire("Ok"),
        HeartbeatResult::Okay
    ));
    assert!(matches!(
        heartbeat_result_from_wire("NoInstanceFound"),
        HeartbeatResult::NoInstanceFound
    ));
    assert!(matches!(
        heartbeat_result_from_wire("anything else"),
        HeartbeatResult::Unknown
    ));
    assert!(matches!(
        heartbeat_reaction(&HeartbeatResult::Okay),
        HeartbeatAction::Continue
    ));
    assert!(matches!(
        heartbeat_reaction(&HeartbeatResult::NoInstanceFound),
        HeartbeatAction::ReRegister
    ));
    assert!(matches!(
        heartbeat_reaction(&HeartbeatResult::Unknown),
        HeartbeatAction::LogUnknown
    ));
}

#[test]
fn fetched_documents_yield_their_content_field() {
    let response = parse_yaml("content: \"name: alice\"\nmd5: abc\n").unwrap();
    assert_eq!(extract_content(&response).as_deref(), Some("name: alice"));
    let response = parse_yaml("other: 1\n").unwrap();
    assert!(extract_content(&response).is_none());
    let response = parse_yaml("content: 42\n").unwrap();
    assert!(extract_content(&response).is_none());
}

#[test]
fn instance_cache_stores_and_reads_back() {
    let mut cache = AppDiscovery::new();
    assert!(cache.get_cached("svc").is_none());
    cache.store("svc", Vec::new());
    assert_eq!(cache.get_cached("svc").unwrap().len(), 0);
    assert_eq!(cache.service_ids(), vec!["svc".to_string()]);
}

#[test]
fn text_helpers() {
    assert_eq!(u64_to_string(0), "0");
    assert_eq!(u64_to_string(65535), "65535");
    assert!(str_eq("a", "a"));
    assert!(!str_eq("a", "b"));
}
