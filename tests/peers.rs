use liaison::endpoint::Endpoint;
use liaison::peers::PeerTable;

const LOCAL: u32 = 0xC0A8_010A;
const PORT: u16 = 1699;

#[test]
fn upsert_of_local_endpoint_is_a_noop() {
    let mut t = PeerTable::new(Endpoint::new(LOCAL, PORT));
    assert!(!t.upsert(Endpoint::new(LOCAL, PORT)));
    assert!(!t.upsert(Endpoint::new(LOCAL, 9)));
    assert_eq!(t.len(), 0);
}

#[test]
fn upsert_twice_keeps_size() {
    let mut t = PeerTable::new(Endpoint::new(LOCAL, PORT));
    assert!(t.upsert(Endpoint::new(0xC0A8_0114, PORT)));
    assert!(!t.upsert(Endpoint::new(0xC0A8_0114, PORT)));
    assert_eq!(t.len(), 1);
    assert_eq!(t.snapshot(), vec![Endpoint::new(0xC0A8_0114, PORT)]);
}

#[test]
fn readd_after_remove_is_accepted() {
    let mut t = PeerTable::new(Endpoint::new(LOCAL, PORT));
    t.upsert(Endpoint::new(1, PORT));
    t.upsert(Endpoint::new(2, PORT));
    t.remove(1);
    assert!(!t.contains_host(1));
    assert_eq!(t.snapshot(), vec![Endpoint::new(2, PORT)]);
    assert!(t.upsert(Endpoint::new(1, 4000)));
    assert_eq!(t.snapshot(), vec![Endpoint::new(2, PORT), Endpoint::new(1, 4000)]);
    t.remove(7);
    assert_eq!(t.len(), 2);
}

#[test]
fn merge_skips_local_and_known_hosts_in_order() {
    let mut t = PeerTable::new(Endpoint::new(LOCAL, PORT));
    t.upsert(Endpoint::new(5, PORT));
    t.merge(&[
        Endpoint::new(3, PORT),
        Endpoint::new(LOCAL, PORT),
        Endpoint::new(5, PORT),
        Endpoint::new(4, PORT),
        Endpoint::new(3, PORT),
    ]);
    assert_eq!(
        t.snapshot(),
        vec![Endpoint::new(5, PORT), Endpoint::new(3, PORT), Endpoint::new(4, PORT)]
    );
}
