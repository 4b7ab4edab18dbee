use conreg::discovery::{HeartbeatResult, InstanceStatus, ServiceInstance};
use conreg::registry::Discovery;
use conreg::state::{AppState, Command};

#[test]
fn test_discovery() {
    let mut discovery = Discovery::new();
    let instance = ServiceInstance::new("test", "127.0.0.1", 8080, Vec::new(), 0);
    let registered = discovery
        .register_service("test", vec![instance])
        .unwrap();
    println!("instance: {:?}", registered.len());
    assert_eq!(registered.len(), 1);
    let hb = discovery.heartbeat(
        "test",
        &ServiceInstance::generate_id("127.0.0.1", 8080),
        1000,
    );
    println!("heartbeat: {:?}", matches!(hb, HeartbeatResult::Okay));
    assert_eq!(hb, HeartbeatResult::Okay);
    let services = discovery.get_service_instances("test");
    println!("services: {:?}", services.len());
    assert_eq!(services.len(), 1);
    assert_eq!(services[0].status, InstanceStatus::Up);
}

#[test]
fn instance_id_is_the_md5_of_ip_and_port() {
    let id1 = ServiceInstance::generate_id("10.0.0.1", 9000);
    let id2 = ServiceInstance::generate_id("10.0.0.1", 9000);
    assert_eq!(id1, id2, "registering twice yields the same id");
    assert_eq!(id1, format!("{:x}", md5::compute("10.0.0.1:9000")));
    assert_ne!(id1, ServiceInstance::generate_id("10.0.0.1", 9001));
}

#[test]
fn fresh_instances_are_ready_and_unavailable() {
    let mut discovery = Discovery::new();
    let inst = ServiceInstance::new("svc", "10.0.0.1", 9000, Vec::new(), 0);
    discovery.register_instance(inst);
    assert_eq!(discovery.get_available_service_instances("svc").len(), 0);
    // the first heartbeat makes it available
    let iid = ServiceInstance::generate_id("10.0.0.1", 9000);
    assert_eq!(discovery.heartbeat("svc", &iid, 10), HeartbeatResult::Okay);
    assert_eq!(discovery.get_available_service_instances("svc").len(), 1);
}

#[test]
fn heartbeat_for_unknown_instance_reports_no_instance() {
    let mut discovery = Discovery::new();
    assert_eq!(
        discovery.heartbeat("svc", "nope", 10),
        HeartbeatResult::NoInstanceFound
    );
}

#[test]
fn missed_heartbeats_decline_to_down_and_cleanup_removes() {
    let mut discovery = Discovery::new();
    let inst = ServiceInstance::new("svc", "10.0.0.1", 9000, Vec::new(), 0);
    discovery.register_instance(inst);
    let iid = ServiceInstance::generate_id("10.0.0.1", 9000);
    discovery.heartbeat("svc", &iid, 0);
    // checks every 6 s with a 5 s timeout; three misses, then down, then gone
    discovery.tick(6_000, 5_000);
    assert_eq!(
        discovery.get_service_instances("svc")[0].status,
        InstanceStatus::Sick(1)
    );
    discovery.tick(12_000, 5_000);
    assert_eq!(
        discovery.get_service_instances("svc")[0].status,
        InstanceStatus::Sick(2)
    );
    discovery.tick(18_000, 5_000);
    assert_eq!(
        discovery.get_service_instances("svc")[0].status,
        InstanceStatus::Sick(3)
    );
    assert_eq!(discovery.get_available_service_instances("svc").len(), 0);
    discovery.tick(24_000, 5_000);
    assert_eq!(
        discovery.get_service_instances("svc")[0].status,
        InstanceStatus::Down
    );
    discovery.cleanup();
    assert_eq!(discovery.get_service_instances("svc").len(), 0);
}

#[test]
fn heartbeat_recovers_a_sick_instance() {
    let mut discovery = Discovery::new();
    let inst = ServiceInstance::new("svc", "10.0.0.1", 9000, Vec::new(), 0);
    discovery.register_instance(inst);
    let iid = ServiceInstance::generate_id("10.0.0.1", 9000);
    discovery.tick(6_000, 5_000);
    let sick = &discovery.get_service_instances("svc")[0];
    assert_eq!(sick.status, InstanceStatus::Sick(1));
    assert_eq!(sick.lost_heartbeats, 1);
    assert_eq!(discovery.heartbeat("svc", &iid, 7_000), HeartbeatResult::Okay);
    let up = &discovery.get_service_instances("svc")[0];
    assert_eq!(up.status, InstanceStatus::Up);
    assert_eq!(up.lost_heartbeats, 0, "a heartbeat resets the miss counter");
}

#[test]
fn offline_instances_are_left_alone_by_ticks() {
    let mut inst = ServiceInstance::new("svc", "10.0.0.1", 9000, Vec::new(), 0);
    inst.set_offline();
    inst.tick(60_000, 5_000);
    assert_eq!(inst.status, InstanceStatus::Offline);
    inst.set_online();
    assert_eq!(inst.status, InstanceStatus::Ready);
}

#[test]
fn register_service_rejects_foreign_instances() {
    let mut discovery = Discovery::new();
    let foreign = ServiceInstance::new("other", "10.0.0.1", 9000, Vec::new(), 0);
    assert!(discovery.register_service("svc", vec![foreign]).is_err());
}

#[test]
fn applied_instance_commands_respect_the_namespace_gate() {
    let mut state = AppState::new(0);
    let inst = ServiceInstance::new("svc", "10.0.0.1", 9000, Vec::new(), 0);
    // an unknown namespace skips the command
    state.apply_command(
        &Command::RegisterServiceInstance {
            namespace_id: "ghostly".to_string(),
            instance: inst,
        },
        1,
    );
    assert_eq!(state.instances.len(), 0);
    let inst = ServiceInstance::new("svc", "10.0.0.1", 9000, Vec::new(), 0);
    state.apply_command(
        &Command::RegisterServiceInstance {
            namespace_id: "public".to_string(),
            instance: inst,
        },
        1,
    );
    assert_eq!(state.instances.len(), 1);
    assert_eq!(state.instances[0].instance.status, InstanceStatus::Ready);
    // the replicated heartbeat marks it up
    state.apply_command(
        &Command::Heartbeat {
            namespace_id: "public".to_string(),
            service_id: "svc".to_string(),
            instance_id: ServiceInstance::generate_id("10.0.0.1", 9000),
        },
        2,
    );
    assert_eq!(state.instances[0].instance.status, InstanceStatus::Up);
    // deregistering the service removes its instances
    state.apply_command(
        &Command::DeregisterService {
            namespace_id: "public".to_string(),
            service_id: "svc".to_string(),
        },
        3,
    );
    assert_eq!(state.instances.len(), 0);
}
