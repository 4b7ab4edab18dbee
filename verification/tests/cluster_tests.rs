use conreg::cluster::{
    build_url, parse_node, plan_promote, plan_remove, route_write, ForwardRequest, WriteRouting,
};
use conreg::log_store::{EntryPayload, LeaderId, LogEntry, LogId, LogStore, Vote};

#[test]
fn node_arguments_parse_as_id_and_address() {
    let (id, addr) = parse_node("1=127.0.0.1:8000").unwrap();
    assert_eq!(id, 1);
    assert_eq!(addr, "127.0.0.1:8000");
    let (id, addr) = parse_node("42=node.example:9").unwrap();
    assert_eq!(id, 42);
    assert_eq!(addr, "node.example:9");
    assert!(parse_node("noequals").is_err());
    assert!(parse_node("1=a=b").is_err(), "exactly one separator is required");
    assert!(parse_node("x=addr").is_err());
    assert!(parse_node("=addr").is_err());
    assert!(parse_node("99999999999999999999999=addr").is_err());
}

#[test]
fn promotion_extends_the_voter_set() {
    let existing = vec![1, 2];
    assert_eq!(plan_promote(&existing, &vec![3, 4]).unwrap(), vec![1, 2, 3, 4]);
    assert_eq!(plan_promote(&existing, &vec![2]).unwrap_err(), 2);
}

#[test]
fn removal_drops_the_node() {
    let existing = vec![1, 2, 3];
    assert_eq!(plan_remove(&existing, 2).unwrap(), vec![1, 3]);
    assert!(plan_remove(&existing, 9).is_none());
}

#[test]
fn cluster_urls() {
    assert_eq!(
        build_url("127.0.0.1:8000", "/init"),
        "http://127.0.0.1:8000/api/cluster/init"
    );
    assert_eq!(
        ForwardRequest::WriteRequest.to_forward_url("10.0.0.9:8000"),
        "http://10.0.0.9:8000/api/cluster/write"
    );
    assert_eq!(
        ForwardRequest::AddLearner.to_forward_url("a"),
        "http://a/api/cluster/add-learner"
    );
    assert_eq!(
        ForwardRequest::MembershipRequest.to_forward_url("a"),
        "http://a/api/cluster/change-membership"
    );
}

#[test]
fn writes_route_to_the_leader() {
    assert!(matches!(route_write(true, None), WriteRouting::ApplyHere));
    let leader = "10.0.0.1:8000".to_string();
    match route_write(false, Some(&leader)) {
        WriteRouting::ForwardTo(a) => assert_eq!(a, leader),
        _ => panic!("expected a forward"),
    }
    assert!(matches!(route_write(false, None), WriteRouting::NoLeader));
}

fn entry(index: u64) -> LogEntry {
    LogEntry {
        log_id: LogId { term: 1, node_id: 1, index },
        payload: EntryPayload::Blank,
    }
}

#[test]
fn log_store_appends_truncates_and_purges() {
    let mut log = LogStore::new();
    log.append(vec![entry(1), entry(2), entry(3), entry(4)]);
    let (purged, last) = log.get_log_state();
    assert!(purged.is_none());
    assert_eq!(last.unwrap().index, 4);

    log.truncate_from(3);
    assert_eq!(log.entries.len(), 2);
    let (_, last) = log.get_log_state();
    assert_eq!(last.unwrap().index, 2);

    log.append(vec![entry(3)]);
    log.purge_through(LogId { term: 1, node_id: 1, index: 2 });
    assert_eq!(log.entries.len(), 1);
    assert_eq!(log.entries[0].log_id.index, 3);
    let (purged, _) = log.get_log_state();
    assert_eq!(purged.unwrap().index, 2);

    // with everything purged the last log id falls back to the purge point
    log.purge_through(LogId { term: 1, node_id: 1, index: 3 });
    let (purged, last) = log.get_log_state();
    assert_eq!(purged.unwrap().index, 3);
    assert_eq!(last.unwrap().index, 3);
}

#[test]
fn votes_persist() {
    let mut log = LogStore::new();
    assert!(log.read_vote().is_none());
    let v = Vote { leader_id: LeaderId { term: 3, node_id: 2 }, committed: true };
    log.save_vote(v);
    assert_eq!(log.read_vote().unwrap().leader_id.term, 3);
}

#[test]
fn range_positions_scan_densely() {
    let mut log = LogStore::new();
    log.append(vec![entry(5), entry(6), entry(9)]);
    let pos = log.range_positions(6, Some(10));
    assert_eq!(pos, vec![1, 2]);
    let pos = log.range_positions(0, None);
    assert_eq!(pos, vec![0, 1, 2]);
}

#[test]
fn entries_apply_in_order_and_stamp_the_position() {
    let mut sm = conreg::state::StateMachine::new(0);
    assert_eq!(sm.snapshot_id(3), "--3");
    let e = LogEntry {
        log_id: LogId { term: 2, node_id: 1, index: 5 },
        payload: EntryPayload::Normal(conreg::state::Command::Put {
            key: "k".to_string(),
            value: "v".to_string(),
        }),
    };
    let r = sm.apply_entry(&e, 10);
    assert_eq!(r.value.as_deref(), Some("v"));
    assert_eq!(sm.last_applied.unwrap().index, 5);
    assert_eq!(sm.snapshot_id(3), "2-1-5-3");
    let m = LogEntry {
        log_id: LogId { term: 2, node_id: 1, index: 6 },
        payload: EntryPayload::Membership(vec![1, 2, 3]),
    };
    sm.apply_entry(&m, 11);
    assert_eq!(sm.membership, vec![1, 2, 3]);
}
