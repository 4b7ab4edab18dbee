use conreg::conf::{LoadBalanceStrategy, ServerAddr};
use conreg::lb::{
    rewrite_lb_url, Instance, LoadBalanceError, RandomLoadBalance, RoundRobinLoadBalance,
    WeightRandomLoadBalance, WeightRoundRobinLoadBalance,
};
use conreg::value::ConfigValue;

fn inst(id: &str, ip: &str, port: u16, weight: Option<i64>) -> Instance {
    let mut meta = Vec::new();
    if let Some(w) = weight {
        meta.push(("weight".to_string(), ConfigValue::Int(w)));
    }
    Instance {
        id: id.to_string(),
        service_id: "svc".to_string(),
        ip: ip.to_string(),
        port,
        meta,
    }
}

#[test]
fn weight_defaults_to_one() {
    assert_eq!(inst("a", "1.1.1.1", 1, None).get_weight(), 1);
    assert_eq!(inst("a", "1.1.1.1", 1, Some(20)).get_weight(), 20);
    assert_eq!(inst("a", "1.1.1.1", 1, Some(0)).get_weight(), 1);
    assert_eq!(inst("a", "1.1.1.1", 1, Some(-3)).get_weight(), 1);
}

#[test]
fn random_balance_picks_from_the_list() {
    let lb = RandomLoadBalance;
    assert!(matches!(
        lb.get_instance("svc", &Vec::new()),
        Err(LoadBalanceError::NoAvailableInstance(_))
    ));
    let one = vec![inst("a", "1.1.1.1", 1, None)];
    assert_eq!(lb.get_instance("svc", &one).unwrap().id, "a");
    let many = vec![inst("a", "1.1.1.1", 1, None), inst("b", "2.2.2.2", 2, None)];
    let picked = lb.get_instance("svc", &many).unwrap();
    assert!(picked.id == "a" || picked.id == "b");
}

#[test]
fn round_robin_walks_the_list() {
    let mut lb = RoundRobinLoadBalance::new();
    let many = vec![
        inst("a", "1.1.1.1", 1, None),
        inst("b", "2.2.2.2", 2, None),
        inst("c", "3.3.3.3", 3, None),
    ];
    // the counter starts at zero and advances before each pick
    assert_eq!(lb.get_instance("svc", &many).unwrap().id, "b");
    assert_eq!(lb.get_instance("svc", &many).unwrap().id, "c");
    assert_eq!(lb.get_instance("svc", &many).unwrap().id, "a");
    assert_eq!(lb.get_instance("svc", &many).unwrap().id, "b");
    // counters are kept per service
    assert_eq!(lb.get_instance("other", &many).unwrap().id, "b");
}

#[test]
fn weighted_strategies_prefer_heavier_instances() {
    let many = vec![inst("a", "1.1.1.1", 1, Some(1)), inst("b", "2.2.2.2", 2, Some(3))];
    let lb = WeightRandomLoadBalance::new();
    let picked = lb.get_instance("svc", &many).unwrap();
    assert!(picked.id == "a" || picked.id == "b");
    let mut wrr = WeightRoundRobinLoadBalance::new();
    // the cycle has total weight 4: position 0 is a, positions 1..4 are b
    assert_eq!(wrr.get_instance("svc", &many).unwrap().id, "a");
    assert_eq!(wrr.get_instance("svc", &many).unwrap().id, "b");
    assert_eq!(wrr.get_instance("svc", &many).unwrap().id, "b");
    assert_eq!(wrr.get_instance("svc", &many).unwrap().id, "b");
    assert_eq!(wrr.get_instance("svc", &many).unwrap().id, "a");
}

#[test]
fn lb_urls_are_rewritten_to_the_instance() {
    let rewritten = rewrite_lb_url("lb://test-server/hello", "1.2.3.4", 8080).unwrap();
    assert_eq!(rewritten, "http://1.2.3.4:8080/hello");
    let rewritten = rewrite_lb_url("lb-wrr://svc", "1.2.3.4", 80).unwrap();
    assert_eq!(rewritten, "http://1.2.3.4:80");
    assert!(rewrite_lb_url("no-scheme-here", "1.2.3.4", 80).is_none());
}

#[test]
fn strategy_schemes() {
    assert_eq!(LoadBalanceStrategy::RoundRobin.as_schema(), "lb-rr");
    assert_eq!(LoadBalanceStrategy::WeightedRoundRobin.as_schema(), "lb-wrr");
    assert_eq!(LoadBalanceStrategy::Random.as_schema(), "lb-r");
    assert_eq!(LoadBalanceStrategy::WeightedRandom.as_schema(), "lb-wr");
    assert!(matches!(
        LoadBalanceStrategy::default(),
        LoadBalanceStrategy::Random
    ));
}

#[test]
fn server_addr_builds_urls() {
    let single = ServerAddr::Single("127.0.0.1:8000".to_string());
    assert_eq!(
        single.build_url("/api/config/get").unwrap(),
        "http://127.0.0.1:8000/api/config/get"
    );
    let cluster = ServerAddr::Cluster(vec![
        "10.0.0.1:8000".to_string(),
        "10.0.0.2:8000".to_string(),
    ]);
    let url = cluster.build_url("/x").unwrap();
    assert!(url == "http://10.0.0.1:8000/x" || url == "http://10.0.0.2:8000/x");
    assert!(ServerAddr::Unset.build_url("/x").is_err());
}
