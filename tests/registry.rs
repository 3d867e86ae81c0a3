use attackr::coordinator::release_artifact;
use attackr::registry::{BuildKey, BuildLocks, InstanceKey, InstanceRegistry, RegistryError};

fn key(user: i32, challenge: i32, artifact: usize) -> InstanceKey {
    InstanceKey { user, challenge, artifact }
}

fn start(reg: &mut InstanceRegistry, k: InstanceKey, container: &str, now: u64, ttl: Option<u64>) {
    reg.begin_start(k).unwrap();
    reg.finish_start(k, container.to_string(), vec![("8080/tcp".to_string(), 10000)], now, ttl);
}

#[test]
fn second_build_of_same_key_is_refused() {
    let mut locks = BuildLocks::new();
    let k = BuildKey { owner: None, challenge: 7 };
    assert!(locks.acquire(k).is_ok());
    assert_eq!(locks.acquire(k), Err(RegistryError::BuildInProgress));
    assert!(locks.is_building(k));
    locks.release(k);
    assert!(!locks.is_building(k));
    assert!(locks.acquire(k).is_ok());
}

#[test]
fn builds_of_different_keys_are_independent() {
    let mut locks = BuildLocks::new();
    assert!(locks.acquire(BuildKey { owner: Some(1), challenge: 7 }).is_ok());
    assert!(locks.acquire(BuildKey { owner: Some(2), challenge: 7 }).is_ok());
    assert!(locks.acquire(BuildKey { owner: Some(1), challenge: 8 }).is_ok());
}

#[test]
fn instance_start_is_single_flight() {
    let mut reg = InstanceRegistry::new();
    let k = key(1, 2, 0);
    assert!(reg.begin_start(k).is_ok());
    assert_eq!(reg.begin_start(k), Err(RegistryError::InstanceStarting));
    reg.finish_start(k, "c1".to_string(), vec![], 0, None);
    assert!(!reg.is_starting(k));
    assert!(reg.is_running(k));
    assert_eq!(reg.begin_start(k), Err(RegistryError::InstanceRunning));
}

#[test]
fn failed_start_releases_claim() {
    let mut reg = InstanceRegistry::new();
    let k = key(1, 2, 0);
    reg.begin_start(k).unwrap();
    reg.end_start(k);
    assert!(!reg.is_starting(k));
    assert!(!reg.is_running(k));
    assert!(reg.begin_start(k).is_ok());
}

#[test]
fn sweep_stops_expired_instance_once() {
    let mut reg = InstanceRegistry::new();
    let k = key(1, 2, 0);
    start(&mut reg, k, "c1", 5_000, Some(1_000));
    assert!(reg.sweep(5_999).is_empty());
    assert!(reg.is_running(k));
    let stopped = reg.sweep(6_001);
    assert_eq!(stopped.len(), 1);
    assert_eq!(stopped[0].container, "c1");
    assert!(!reg.is_running(k));
    assert!(reg.sweep(7_000).is_empty());
}

#[test]
fn sweep_keeps_instances_without_expiry() {
    let mut reg = InstanceRegistry::new();
    start(&mut reg, key(1, 2, 0), "c1", 0, None);
    start(&mut reg, key(3, 2, 0), "c2", 0, Some(10));
    let stopped = reg.sweep(u64::MAX);
    assert_eq!(stopped.len(), 1);
    assert_eq!(stopped[0].container, "c2");
    assert!(reg.is_running(key(1, 2, 0)));
}

#[test]
fn expiry_that_overflows_never_expires() {
    let mut reg = InstanceRegistry::new();
    start(&mut reg, key(1, 2, 0), "c1", u64::MAX - 1, Some(10));
    assert!(reg.sweep(u64::MAX).is_empty());
}

#[test]
fn stop_removes_one_instance() {
    let mut reg = InstanceRegistry::new();
    start(&mut reg, key(1, 2, 0), "c1", 0, None);
    start(&mut reg, key(1, 2, 1), "c2", 0, None);
    let stopped = reg.stop(key(1, 2, 0)).unwrap();
    assert_eq!(stopped.container, "c1");
    assert!(!reg.is_running(key(1, 2, 0)));
    assert!(reg.is_running(key(1, 2, 1)));
    assert!(reg.stop(key(1, 2, 0)).is_none());
}

#[test]
fn replacing_artifact_stops_its_instances() {
    let mut reg = InstanceRegistry::new();
    start(&mut reg, key(1, 2, 0), "a", 0, None);
    start(&mut reg, key(1, 2, 1), "b", 0, None);
    start(&mut reg, key(4, 2, 0), "c", 0, None);
    start(&mut reg, key(1, 3, 0), "d", 0, None);
    let stopped = release_artifact(&mut reg, BuildKey { owner: Some(1), challenge: 2 });
    let names: Vec<&str> = stopped.iter().map(|e| e.container.as_str()).collect();
    assert_eq!(names, vec!["a", "b"]);
    assert!(reg.is_running(key(4, 2, 0)));
    assert!(reg.is_running(key(1, 3, 0)));
    assert!(release_artifact(&mut reg, BuildKey { owner: Some(1), challenge: 2 }).is_empty());
}

#[test]
fn replacing_static_artifact_stops_every_user() {
    let mut reg = InstanceRegistry::new();
    start(&mut reg, key(1, 2, 0), "a", 0, None);
    start(&mut reg, key(4, 2, 0), "c", 0, None);
    start(&mut reg, key(1, 3, 0), "d", 0, None);
    let stopped = release_artifact(&mut reg, BuildKey { owner: None, challenge: 2 });
    assert_eq!(stopped.len(), 2);
    assert!(!reg.is_running(key(1, 2, 0)));
    assert!(!reg.is_running(key(4, 2, 0)));
    assert!(reg.is_running(key(1, 3, 0)));
}

#[test]
fn stop_all_empties_registry() {
    let mut reg = InstanceRegistry::new();
    start(&mut reg, key(1, 2, 0), "a", 0, None);
    start(&mut reg, key(4, 5, 0), "b", 0, None);
    let stopped = reg.take(attackr::registry::Selector::All);
    assert_eq!(stopped.len(), 2);
    assert!(!reg.is_running(key(1, 2, 0)));
    assert!(!reg.is_running(key(4, 5, 0)));
}
