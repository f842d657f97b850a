use chat_engine::members::{parse_room_members, MemberSet};

#[test]
fn test_parse_room_mods() {
    let r = parse_room_members("The moderators of this channel are: foo, bar");
    assert_eq!(r.count(), 2);
    assert!(r.contains("foo"));
    assert!(r.contains("bar"));

    let r = parse_room_members("The moderators of this channel are: a");
    assert_eq!(r.count(), 1);
    assert!(r.contains("a"));

    let r = parse_room_members("The moderators of this channel are:");
    assert_eq!(r.count(), 0);
}

#[test]
fn parse_room_members_is_order_independent() {
    let a = parse_room_members("The moderators of this channel are: foo, bar");
    let b = parse_room_members("The moderators of this channel are: bar, foo");
    assert_eq!(a.count(), b.count());
    assert!(a.contains("foo") && a.contains("bar"));
    assert!(b.contains("foo") && b.contains("bar"));
}

#[test]
fn parse_room_members_collapses_duplicates() {
    let r = parse_room_members("The moderators of this channel are: foo, foo, bar");
    assert_eq!(r.count(), 2);
    assert!(r.contains("foo"));
    assert!(r.contains("bar"));
}

#[test]
fn parse_room_members_trims_and_drops_empties() {
    let r = parse_room_members("VIPs: alice ,  , bob.");
    assert_eq!(r.count(), 2);
    assert!(r.contains("alice"));
    assert!(r.contains("bob"));
}

#[test]
fn parse_room_members_without_colon_names_nobody() {
    let r = parse_room_members("no colon here");
    assert_eq!(r.count(), 0);
}

#[test]
fn member_set_deduplicates_and_clears() {
    let mut s = MemberSet::new();
    s.insert("alice".to_string());
    s.insert("alice".to_string());
    s.insert("bob".to_string());
    assert_eq!(s.count(), 2);
    assert!(s.contains("alice"));
    assert!(!s.contains("carol"));
    assert!(s.contains_ci("ALICE"));
    s.clear();
    assert_eq!(s.count(), 0);
    assert!(!s.contains("alice"));
}
