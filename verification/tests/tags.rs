use donglora_mux::{Pending, TagMapper};
use donglora_protocol::commands;

#[test]
fn tag_mapper_skips_zero() {
    let mut m = TagMapper::new();
    // Start at 1; after many allocations we should never see 0.
    let tag1 = m.allocate(1, 100, commands::TYPE_PING);
    assert_ne!(tag1, 0);
    m.take(tag1);
    for _ in 0..1024 {
        let t = m.allocate(1, 100, commands::TYPE_PING);
        assert_ne!(t, 0);
        m.take(t);
    }
}

#[test]
fn tag_mapper_take_returns_mapping() {
    let mut m = TagMapper::new();
    let tag = m.allocate(42, 7, commands::TYPE_TX);
    let p = m.take(tag).unwrap();
    assert_eq!(p.client_id, 42);
    assert_eq!(p.upstream_tag, 7);
    assert_eq!(p.cmd_type, commands::TYPE_TX);
    assert_eq!(m.len(), 0);
}

#[test]
fn tag_mapper_peek_keeps_mapping() {
    let mut m = TagMapper::new();
    let tag = m.allocate(42, 7, commands::TYPE_TX);
    let p = m.peek(tag).unwrap();
    assert_eq!(p.client_id, 42);
    assert_eq!(m.len(), 1);
}

#[test]
fn tag_mapper_drop_client_removes_only_that_clients_tags() {
    let mut m = TagMapper::new();
    let t_a1 = m.allocate(1, 10, commands::TYPE_PING);
    let t_a2 = m.allocate(1, 11, commands::TYPE_PING);
    let t_b = m.allocate(2, 12, commands::TYPE_PING);
    m.drop_client(1);
    assert!(m.take(t_a1).is_none());
    assert!(m.take(t_a2).is_none());
    assert!(m.take(t_b).is_some());
}

#[test]
fn tags_count_up_from_one_and_wrap_past_zero() {
    let mut m = TagMapper::new();
    for expected in 1..=u16::MAX {
        let tag = m.allocate(1, 0, commands::TYPE_PING);
        assert_eq!(tag, expected);
        m.take(tag);
    }
    assert_eq!(m.allocate(1, 0, commands::TYPE_PING), 1);
}

#[test]
fn tags_in_flight_are_passed_over() {
    let mut m = TagMapper::new();
    for expected in 1..=3u16 {
        assert_eq!(m.allocate(1, expected, commands::TYPE_PING), expected);
    }
    m.take(2);
    for _ in 4..=u16::MAX {
        let tag = m.allocate(9, 0, commands::TYPE_TX);
        m.take(tag);
    }
    // The cycle starts again: 1 and 3 are still in flight.
    assert_eq!(m.allocate(5, 55, commands::TYPE_TX), 2);
    assert_eq!(m.allocate(6, 66, commands::TYPE_TX), 4);
    assert_eq!(
        m.take(2),
        Some(Pending { client_id: 5, upstream_tag: 55, cmd_type: commands::TYPE_TX })
    );
    assert_eq!(m.take(3).unwrap().upstream_tag, 3);
}

#[test]
fn a_free_tag_is_left_until_all_are_in_flight() {
    let mut m = TagMapper::new();
    for _ in 0..65534 {
        m.allocate(1, 0, commands::TYPE_PING);
    }
    assert!(m.has_free_tag());
    m.allocate(1, 0, commands::TYPE_PING);
    assert_eq!(m.len(), 65535);
    assert!(!m.has_free_tag());
    m.take(40000);
    assert!(m.has_free_tag());
    assert_eq!(m.allocate(2, 0, commands::TYPE_PING), 40000);
}

#[test]
fn take_undoes_allocate() {
    let mut m = TagMapper::new();
    let kept = m.allocate(1, 5, commands::TYPE_PING);
    let tag = m.allocate(2, 6, commands::TYPE_TX);
    assert!(m.take(tag).is_some());
    assert!(m.take(tag).is_none());
    assert_eq!(m.len(), 1);
    assert_eq!(m.peek(kept).unwrap().upstream_tag, 5);
}

#[test]
fn clear_frees_all_tags_and_goes_on_counting() {
    let mut m = TagMapper::new();
    m.allocate(1, 0, commands::TYPE_PING);
    m.allocate(2, 0, commands::TYPE_PING);
    m.clear();
    assert_eq!(m.len(), 0);
    assert!(m.peek(1).is_none());
    assert_eq!(m.allocate(1, 0, commands::TYPE_PING), 3);
}
