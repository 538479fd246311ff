use powchain::peers::{PeerRegistry, CONNECT_ATTEMPTS};

#[test]
fn test_register_and_lookup() {
    let mut reg = PeerRegistry::new();
    assert_eq!(reg.count(), 0);
    assert!(!reg.is_connected("127.0.0.1:3031"));
    assert!(reg.register(String::from("127.0.0.1:3031")));
    assert!(reg.is_connected("127.0.0.1:3031"));
    assert!(!reg.is_connected("127.0.0.1:3032"));
    assert_eq!(reg.count(), 1);
    assert_eq!(reg.address_at(0), "127.0.0.1:3031");
}

#[test]
fn test_register_deduplicates() {
    let mut reg = PeerRegistry::new();
    assert!(reg.register(String::from("127.0.0.1:3035")));
    assert!(!reg.register(String::from("127.0.0.1:3035")));
    assert_eq!(reg.count(), 1);
    assert!(reg.register(String::from("127.0.0.1:3036")));
    assert_eq!(reg.count(), 2);
}

#[test]
fn test_connect_attempt_bound() {
    assert_eq!(CONNECT_ATTEMPTS, 3);
}
