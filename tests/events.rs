use bifrost::events::{EventKind, HueEventStream};
use bifrost::rtype::RType;

#[test]
fn replay_after_reconnect() {
    let mut s = HueEventStream::new(128);
    let link = RType::Light.deterministic("l");
    for _ in 0..11 {
        s.hue_event(EventKind::Update, link);
    }
    // the client saw event 10, then disconnected
    assert_eq!(s.next_id(), 11);
    for _ in 0..3 {
        s.hue_event(EventKind::Update, link);
    }
    let replay = s.events_after(Some(10));
    let ids: Vec<u64> = replay.iter().map(|e| e.id).collect();
    assert_eq!(ids, vec![11, 12, 13]);
    let live = s.hue_event(EventKind::Delete, link);
    assert_eq!(live.id, 14);
}

#[test]
fn ring_keeps_only_capacity() {
    let mut s = HueEventStream::new(3);
    let link = RType::Room.deterministic("r");
    for _ in 0..5 {
        s.hue_event(EventKind::Add, link);
    }
    let all = s.events_after(None);
    let ids: Vec<u64> = all.iter().map(|e| e.id).collect();
    assert_eq!(ids, vec![2, 3, 4]);
    assert_eq!(s.events_after(Some(3)).len(), 1);
    assert_eq!(s.events_after(Some(0)).len(), 3);
}
