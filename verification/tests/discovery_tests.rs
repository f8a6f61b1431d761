use filesync::discovery::{parse_u32, read_announcement, PeerChange, PeerTable};

#[test]
fn versions_are_read_as_str_parse_reads_them() {
    assert_eq!(parse_u32("42"), Some(42));
    assert_eq!(parse_u32("+7"), Some(7));
    assert_eq!(parse_u32("007"), Some(7));
    assert_eq!(parse_u32("4294967295"), Some(u32::MAX));
    assert_eq!(parse_u32("4294967296"), None);
    assert_eq!(parse_u32(""), None);
    assert_eq!(parse_u32("+"), None);
    assert_eq!(parse_u32("-1"), None);
    assert_eq!(parse_u32("1a"), None);
    assert_eq!(parse_u32(" 1"), None);
    for s in ["0", "12", "+3", "99999999999", "x", "٣"] {
        assert_eq!(parse_u32(s), s.parse::<u32>().ok(), "{s}");
    }
}

#[test]
fn announcements_need_an_id_and_default_the_rest() {
    let id = "11112222-3333-4444-5555-666677778888";
    assert!(read_announcement(None, Some("n"), Some("1"), Some("fp")).is_none());
    assert!(read_announcement(Some("nope"), Some("n"), Some("1"), Some("fp")).is_none());
    let a = read_announcement(Some(id), None, None, None).unwrap();
    assert_eq!(a.id, 0x1111_2222_3333_4444_5555_6666_7777_8888);
    assert_eq!(a.name, "Unknown");
    assert_eq!(a.protocol_version, 1);
    assert_eq!(a.fingerprint_short, "");
    let a = read_announcement(Some(id), Some("desk"), Some("3"), Some("AB:CD")).unwrap();
    assert_eq!((a.name.as_str(), a.protocol_version, a.fingerprint_short.as_str()), ("desk", 3, "AB:CD"));
    let a = read_announcement(Some(id), Some("desk"), Some("three"), None).unwrap();
    assert_eq!(a.protocol_version, 1);
}

#[test]
fn the_table_ignores_itself_and_lists_each_peer_once() {
    let own: u128 = 1;
    let mut t: PeerTable<&str> = PeerTable::new(own);
    assert_eq!(t.announce(own, "me"), PeerChange::Ignored);
    assert!(t.peers().is_empty());
    assert_eq!(t.announce(2, "first"), PeerChange::Discovered);
    assert_eq!(t.announce(3, "other"), PeerChange::Discovered);
    assert_eq!(t.announce(2, "again"), PeerChange::Updated);
    assert_eq!(t.peers().len(), 2);
    assert_eq!(t.peers()[0], (2, "again"));
    assert_eq!(t.peers()[1], (3, "other"));
}

#[test]
fn a_withdrawal_drops_the_peer_named_in_it() {
    let mut t: PeerTable<u8> = PeerTable::new(0);
    let a: u128 = 0x1111_2222_3333_4444_5555_6666_7777_8888;
    let b: u128 = 0x9999_aaaa_bbbb_cccc_dddd_eeee_ffff_0000;
    t.announce(a, 1);
    t.announce(b, 2);
    assert_eq!(t.withdraw("filesync-00000000-0000-0000-0000-000000000000._filesync._tcp.local."), None);
    assert_eq!(t.peers().len(), 2);
    assert_eq!(t.withdraw("filesync-9999aaaa-bbbb-cccc-dddd-eeeeffff0000._filesync._tcp.local."), Some(b));
    assert_eq!(t.peers().len(), 1);
    assert_eq!(t.peers()[0].0, a);
}
