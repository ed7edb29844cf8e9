use device_connect_edge::discovery::{PeerTable, PresenceEffect};
use device_connect_edge::transport::NoopSubscription;
use device_connect_edge::transports::zenoh::{config_from_env, split_env_list, ZenohTransport, ZenohTransportConfig};

#[test]
fn default_env_config_is_peer_mode() {
    let transport = ZenohTransport::new(ZenohTransportConfig::default());
    assert!(!transport.is_connected());
    assert!(transport.config().endpoints.is_empty());
}

#[test]
fn peers_are_stored_replaced_and_removed() {
    let mut t: PeerTable<u32> = PeerTable::new();
    assert_eq!(t.observe(Some("me"), "me".to_string(), None, 1), PresenceEffect::IgnoredOwn);
    assert_eq!(t.len(), 0);
    assert_eq!(t.observe(Some("me"), "b".to_string(), None, 2), PresenceEffect::Stored);
    assert_eq!(t.observe(Some("me"), "a".to_string(), Some(false), 3), PresenceEffect::Stored);
    assert_eq!(t.observe(None, "c".to_string(), None, 4), PresenceEffect::Stored);
    assert_eq!(t.values(), vec![&3, &2, &4]);
    assert_eq!(t.observe(None, "b".to_string(), None, 5), PresenceEffect::Stored);
    assert_eq!(t.get("b"), Some(&5));
    assert_eq!(t.observe(None, "b".to_string(), Some(true), 0), PresenceEffect::Removed);
    assert_eq!(t.get("b"), None);
    assert_eq!(t.values(), vec![&3, &4]);
    assert_eq!(t.observe(None, "zz".to_string(), Some(true), 0), PresenceEffect::Removed);
    assert_eq!(t.len(), 2);
}

#[test]
fn peers_are_listed_in_string_order() {
    let mut t: PeerTable<&str> = PeerTable::new();
    for id in ["sensor-10", "Sensor", "sensor-2", "sensor", "\u{e9}"] {
        t.observe(None, id.to_string(), None, id);
    }
    let listed: Vec<&str> = t.values().into_iter().copied().collect();
    let mut sorted = vec!["sensor-10", "Sensor", "sensor-2", "sensor", "\u{e9}"];
    sorted.sort();
    assert_eq!(listed, sorted);
}

#[test]
fn env_lists_are_split_and_trimmed() {
    assert_eq!(split_env_list(" tcp/a:7447 , ,tcp/b:7447,\u{a0}"), vec!["tcp/a:7447", "tcp/b:7447"]);
    assert!(split_env_list("").is_empty());
    assert!(split_env_list(" , ").is_empty());
    assert_eq!(split_env_list("x"), vec!["x"]);
    let entries = split_env_list(" tcp/a:1 ,\t, tcp/b:2 , udp/c ");
    assert_eq!(split_env_list(&entries.join(",")), entries);
    assert!(entries.iter().all(|e| !e.is_empty() && !e.contains(',') && e.trim() == e));
}

#[test]
fn env_config_peer_mode_rules() {
    let c = config_from_env(Some("tcp/a:1"), None, None, None);
    assert!(!c.peer_mode);
    assert_eq!(c.endpoints, vec!["tcp/a:1"]);
    let c = config_from_env(Some("tcp/a:1"), Some("tcp/0.0.0.0:2"), Some("eth0".to_string()), Some("d2d"));
    assert!(c.peer_mode);
    assert_eq!(c.listen, vec!["tcp/0.0.0.0:2"]);
    assert_eq!(c.multicast_interface.as_deref(), Some("eth0"));
    assert!(config_from_env(None, None, None, None).peer_mode);
    assert!(config_from_env(Some("tcp/a:1"), None, None, Some("p2p")).peer_mode);
    assert!(!config_from_env(Some("tcp/a:1"), None, None, Some("router")).peer_mode);
}

#[test]
fn zenoh_transport_state() {
    let mut t = ZenohTransport::new(ZenohTransportConfig::default());
    assert!(t.connect().is_err());
    assert!(t.is_connected());
    assert!(t.publish("s", vec![1]).is_err());
    assert!(t.request("s", vec![]).is_err());
    assert_eq!(t.subscribe("s", true).unwrap(), NoopSubscription);
    assert!(t.close().is_ok());
    assert!(!t.is_connected());
    assert!(NoopSubscription.unsubscribe().is_ok());
}

#[test]
fn zenoh_config_survives_a_call_sequence() {
    let c = config_from_env(Some("tcp/a:1, tcp/b:2"), Some("tcp/0.0.0.0:7"), Some("eth1".to_string()), Some("router"));
    let mut t = ZenohTransport::new(c.clone());
    let _ = t.connect();
    let _ = t.publish("x", vec![1, 2]);
    let _ = t.subscribe("x", false);
    let _ = t.request("x", vec![]);
    let _ = t.close();
    let _ = t.connect();
    assert!(t.is_connected());
    let now = t.config();
    assert_eq!(now.endpoints, c.endpoints);
    assert_eq!(now.listen, c.listen);
    assert_eq!(now.multicast_interface, c.multicast_interface);
    assert_eq!(now.peer_mode, c.peer_mode);
    assert_eq!(now.endpoints, vec!["tcp/a:1", "tcp/b:2"]);
}

#[test]
fn own_device_never_listed_after_many_announcements() {
    let mut t: PeerTable<u32> = PeerTable::new();
    for round in 0..5u32 {
        t.observe(Some("me"), "me".to_string(), None, round);
        t.observe(Some("me"), "peer".to_string(), None, round);
        t.observe(Some("me"), "me".to_string(), Some(false), round);
        t.observe(Some("me"), "other".to_string(), Some(round % 2 == 0), round);
    }
    assert!(t.get("me").is_none());
    assert_eq!(t.get("peer"), Some(&4));
    assert!(t.values().iter().all(|v| **v == 4));
    assert_eq!(t.len(), 1);
}
