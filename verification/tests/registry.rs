use std::time::Duration;

use conduit::collector::producer_url;
use conduit::registry::{Producer, ProducerEndpoint, Registry};

fn endpoint(id: u128, address: &str, secs: u64) -> ProducerEndpoint {
    ProducerEndpoint { id, address: address.to_string(), interval: Duration::from_secs(secs) }
}

#[test]
fn new_registry_is_empty() {
    assert!(Registry::new().snapshot().is_empty());
}

#[test]
fn upsert_records_each_producer() {
    let mut r = Registry::new();
    r.upsert(&endpoint(1, "127.0.0.1:4000", 10), 1_000);
    r.upsert(&endpoint(2, "127.0.0.1:4001", 20), 2_000);
    let mut snap = r.snapshot();
    snap.sort_by_key(|p| p.id);
    assert_eq!(snap.len(), 2);
    assert_eq!(snap[0].id, 1);
    assert_eq!(snap[0].address, "127.0.0.1:4000");
    assert_eq!(snap[0].interval, Duration::from_secs(10));
    assert_eq!(snap[0].last_heard_ms, 1_000);
    assert_eq!(snap[1].last_heard_ms, 2_000);
    assert_eq!(snap[1].id, 2);
    assert_eq!(snap[1].address, "127.0.0.1:4001");
}

#[test]
fn reregistration_overwrites_address() {
    let mut r = Registry::new();
    r.upsert(&endpoint(7, "[::1]:4000", 10), 100);
    r.upsert(&endpoint(8, "[::1]:5000", 10), 200);
    r.upsert(&endpoint(7, "[::1]:4444", 30), 300);
    let snap = r.snapshot();
    assert_eq!(snap.len(), 2);
    let sevens: Vec<&Producer> = snap.iter().filter(|p| p.id == 7).collect();
    assert_eq!(sevens.len(), 1);
    assert_eq!(sevens[0].address, "[::1]:4444");
    assert_eq!(sevens[0].interval, Duration::from_secs(30));
    assert_eq!(sevens[0].last_heard_ms, 300);
    let eights: Vec<&Producer> = snap.iter().filter(|p| p.id == 8).collect();
    assert_eq!(eights[0].last_heard_ms, 200);
}

#[test]
fn producer_url_uses_hyphenated_uuid() {
    let id = 0x67e5_5044_10b1_426f_9247_bb68_0e5f_e0c8u128;
    let p = Producer { id, address: "127.0.0.1:9000".to_string(), interval: Duration::from_secs(1), last_heard_ms: 0 };
    assert_eq!(producer_url(&p), "http://127.0.0.1:9000/67e55044-10b1-426f-9247-bb680e5fe0c8");
    let nil = Producer { id: 0, address: "[::1]:1".to_string(), interval: Duration::from_secs(1), last_heard_ms: 0 };
    assert_eq!(producer_url(&nil), "http://[::1]:1/00000000-0000-0000-0000-000000000000");
}

#[test]
fn cloned_producer_keeps_fields() {
    let p = Producer { id: 3, address: "a:1".to_string(), interval: Duration::from_millis(1500), last_heard_ms: -5 };
    let q = p.clone();
    assert_eq!(q.id, 3);
    assert_eq!(q.address, "a:1");
    assert_eq!(q.interval, Duration::from_millis(1500));
    assert_eq!(q.last_heard_ms, -5);
}
