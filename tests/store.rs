use bifrost::events::EventKind;
use bifrost::rtype::{RType, ResourceLink};
use bifrost::store::{AuxData, ResourceData, Resources, StoreError, StoredResource};

fn node(link: ResourceLink, owner: Option<ResourceLink>, links: Vec<ResourceLink>) -> StoredResource {
    StoredResource { link, owner, links, data: ResourceData::Other }
}

#[test]
fn cascade_delete_room() {
    let mut res = Resources::new();
    let home = RType::BridgeHome.deterministic("home");
    let room = RType::Room.deterministic("room");
    let glight = RType::GroupedLight.deterministic("room-group");
    let d1 = RType::Device.deterministic("d1");
    let d2 = RType::Device.deterministic("d2");
    let l1 = RType::Light.deterministic("l1");
    let l2 = RType::Light.deterministic("l2");
    let other = RType::Device.deterministic("other");
    res.add(node(home, None, vec![room, other]));
    res.add(node(room, None, vec![d1, d2, glight]));
    res.add(node(glight, Some(room), vec![]));
    res.add(node(d1, Some(room), vec![l1]));
    res.add(node(d2, Some(room), vec![l2]));
    res.add(node(l1, Some(d1), vec![]));
    res.add(node(l2, Some(d2), vec![]));
    res.add(node(other, None, vec![]));
    assert_eq!(res.len(), 8);

    assert_eq!(res.delete(&room), Ok(()));
    for gone in [room, glight, d1, d2, l1, l2] {
        assert!(!res.contains(gone.rid));
    }
    assert_eq!(res.len(), 2);
    let h = res.get(home.rid).unwrap();
    assert_eq!(h.links, vec![other]);
    assert!(res.contains(other.rid));
}

#[test]
fn delete_missing_is_not_found() {
    let mut res = Resources::new();
    let room = RType::Room.deterministic("room");
    assert_eq!(res.delete(&room), Err(StoreError::NotFound(room.rid)));
}

#[test]
fn delete_emits_one_event_per_resource() {
    let mut res = Resources::new();
    let dev = RType::Device.deterministic("dev");
    let light = RType::Light.deterministic("light");
    res.add(node(dev, None, vec![light]));
    res.add(node(light, Some(dev), vec![]));
    let before = res.hue_event_stream().next_id();
    res.delete(&dev).unwrap();
    assert_eq!(res.hue_event_stream().next_id(), before + 2);
    let evs = res.hue_event_stream().events_after(Some(before - 1));
    assert!(evs.iter().all(|e| e.kind == EventKind::Delete));
}

#[test]
fn add_is_idempotent() {
    let mut res = Resources::new();
    let dev = RType::Device.deterministic("dev");
    res.add(node(dev, None, vec![]));
    let id = res.hue_event_stream().next_id();
    res.add(node(dev, None, vec![dev]));
    assert_eq!(res.len(), 1);
    assert_eq!(res.hue_event_stream().next_id(), id);
    assert!(res.get(dev.rid).unwrap().links.is_empty());
}

#[test]
fn unchanged_update_emits_nothing() {
    let mut res = Resources::new();
    let dev = RType::Device.deterministic("dev");
    let light = RType::Light.deterministic("light");
    res.add(node(dev, None, vec![light]));
    let id = res.hue_event_stream().next_id();
    res.update_links(dev.rid, vec![light]).unwrap();
    assert_eq!(res.hue_event_stream().next_id(), id);
    res.update_links(dev.rid, vec![]).unwrap();
    assert_eq!(res.hue_event_stream().next_id(), id + 1);
    let last = res.hue_event_stream().events_after(Some(id - 1));
    assert_eq!(last.len(), 1);
    assert_eq!(last[0].kind, EventKind::Update);
    assert_eq!(res.update_links(light.rid, vec![]), Err(StoreError::NotFound(light.rid)));
}

#[test]
fn next_scene_id_takes_smallest_free() {
    let mut res = Resources::new();
    let room = RType::Room.deterministic("room");
    let other_room = RType::Room.deterministic("other");
    res.add(node(room, None, vec![]));
    res.add(node(other_room, None, vec![]));
    assert_eq!(res.get_next_scene_id(&room), Ok(0));
    for (i, key) in ["s0", "s1", "s3"].iter().enumerate() {
        let scene = RType::Scene.deterministic(key);
        res.add(node(scene, Some(room), vec![]));
        let index = if i == 2 { 3 } else { i as u32 };
        res.aux_set(scene.rid, AuxData { index: Some(index), topic: None });
    }
    assert_eq!(res.get_next_scene_id(&room), Ok(2));
    assert_eq!(res.get_next_scene_id(&other_room), Ok(0));
}

#[test]
fn next_scene_id_full_room() {
    let mut res = Resources::new();
    let room = RType::Room.deterministic("room");
    res.add(node(room, None, vec![]));
    for i in 0..100u32 {
        let scene = RType::Scene.deterministic(&format!("scene-{i}"));
        res.add(node(scene, Some(room), vec![]));
        res.aux_set(scene.rid, AuxData { index: Some(i), topic: None });
    }
    assert_eq!(res.get_next_scene_id(&room), Err(StoreError::Full(RType::Scene)));
}

#[test]
fn v1_ids_map_both_ways() {
    let mut res = Resources::new();
    let a = RType::Light.deterministic("a");
    let b = RType::Light.deterministic("b");
    res.add(node(a, None, vec![]));
    res.add(node(b, None, vec![]));
    assert_eq!(res.assign_id_v1(a.rid), Ok(1));
    assert_eq!(res.assign_id_v1(b.rid), Ok(2));
    assert_eq!(res.assign_id_v1(a.rid), Ok(1));
    assert_eq!(res.from_id_v1(2), Ok(b.rid));
    assert_eq!(res.get_id_v1_index(a.rid), Ok(1));
    assert_eq!(res.from_id_v1(7), Err(StoreError::V1NotFound(7)));
    res.delete(&a).unwrap();
    assert_eq!(res.from_id_v1(1), Err(StoreError::V1NotFound(1)));
    assert_eq!(res.get_id_v1_index(a.rid), Err(StoreError::NotFound(a.rid)));
    let missing = RType::Light.deterministic("missing");
    assert_eq!(res.assign_id_v1(missing.rid), Err(StoreError::NotFound(missing.rid)));
}

#[test]
fn owner_of_checks_type() {
    let mut res = Resources::new();
    let dev = RType::Device.deterministic("dev");
    let light = RType::Light.deterministic("light");
    res.add(node(light, Some(dev), vec![]));
    assert_eq!(res.owner_of(&light), Ok(Some(dev)));
    let wrong = RType::Room.link_to(light.rid);
    assert_eq!(res.owner_of(&wrong), Err(StoreError::TypeMismatch(RType::Room)));
    assert_eq!(res.owner_of(&dev), Err(StoreError::NotFound(dev.rid)));
}

#[test]
fn ensure_core_bridge_resources_twice_changes_nothing() {
    let bridge_id = "001788fffe123456";
    let mut res = Resources::new();
    let bridge = RType::Bridge.deterministic(bridge_id);
    let dev = RType::Device.deterministic_from_id(bridge.rid);
    let ic = RType::InternetConnectivity.deterministic_from_id(bridge.rid);

    // without the bridge device there is nothing to patch
    res.ensure_core_bridge_resources(bridge_id);
    assert_eq!(res.len(), 0);

    res.add(node(dev, None, vec![bridge]));
    res.ensure_core_bridge_resources(bridge_id);
    assert!(res.contains(ic.rid));
    assert_eq!(res.get(dev.rid).unwrap().links, vec![bridge, ic]);
    let n = res.len();
    let id = res.hue_event_stream().next_id();

    res.ensure_core_bridge_resources(bridge_id);
    assert_eq!(res.len(), n);
    assert_eq!(res.hue_event_stream().next_id(), id);
    assert_eq!(res.get(dev.rid).unwrap().links, vec![bridge, ic]);
}

#[test]
fn add_bridge_creates_core_resources() {
    let bridge_id = "001788fffe123456";
    let mut res = Resources::new();
    res.add_bridge(bridge_id);
    assert_eq!(res.len(), 9);
    let bridge = RType::Bridge.deterministic(bridge_id);
    let home = RType::BridgeHome.deterministic("001788fffe123456HOME");
    let dev = RType::Device.deterministic_from_id(bridge.rid);
    let ic = RType::InternetConnectivity.deterministic_from_id(bridge.rid);
    let glight = RType::GroupedLight.deterministic_from_id(home.rid);
    for l in [bridge, home, dev, ic, glight] {
        assert!(res.contains(l.rid));
    }
    assert_eq!(res.owner_of(&glight), Ok(Some(home)));
    let id = res.hue_event_stream().next_id();
    assert_eq!(id, 9);
    // a second run and the core patch both find everything in place
    res.add_bridge(bridge_id);
    res.ensure_core_bridge_resources(bridge_id);
    assert_eq!(res.len(), 9);
    assert_eq!(res.hue_event_stream().next_id(), id);
}

#[test]
fn assign_id_v1_takes_smallest_free() {
    let mut res = Resources::new();
    let a = RType::Light.deterministic("a");
    let b = RType::Light.deterministic("b");
    let c = RType::Light.deterministic("c");
    for l in [a, b, c] {
        res.add(node(l, None, vec![]));
    }
    assert_eq!(res.assign_id_v1(a.rid), Ok(1));
    assert_eq!(res.assign_id_v1(b.rid), Ok(2));
    res.delete(&a).unwrap();
    assert_eq!(res.assign_id_v1(c.rid), Ok(1));
    assert_eq!(res.assign_id_v1(b.rid), Ok(2));
}

#[test]
fn delete_absent_changes_nothing() {
    let mut res = Resources::new();
    let a = RType::Light.deterministic("a");
    res.add(node(a, None, vec![]));
    res.assign_id_v1(a.rid).unwrap();
    let id = res.hue_event_stream().next_id();
    let missing = RType::Light.deterministic("missing");
    assert_eq!(res.delete(&missing), Err(StoreError::NotFound(missing.rid)));
    assert_eq!(res.hue_event_stream().next_id(), id);
    assert_eq!(res.from_id_v1(1), Ok(a.rid));
}

#[test]
fn add_bridge_owners_and_links() {
    let bridge_id = "001788fffe123456";
    let mut res = Resources::new();
    res.add_bridge(bridge_id);
    let bridge = RType::Bridge.deterministic(bridge_id);
    let home = RType::BridgeHome.deterministic("001788fffe123456HOME");
    let dev = RType::Device.deterministic_from_id(bridge.rid);
    let zbc = RType::ZigbeeConnectivity.deterministic_from_id(bridge.rid);
    let ic = RType::InternetConnectivity.deterministic_from_id(bridge.rid);
    let ent = RType::Entertainment.deterministic_from_id(bridge.rid);
    let zbdd = RType::ZigbeeDeviceDiscovery.deterministic_from_id(bridge.rid);
    let glight = RType::GroupedLight.deterministic_from_id(home.rid);
    assert_eq!(res.get(dev.rid).unwrap().links, vec![bridge, zbc, ic, ent, zbdd]);
    assert_eq!(res.get(home.rid).unwrap().links, vec![dev, glight]);
    assert_eq!(res.owner_of(&bridge), Ok(Some(dev)));
    assert_eq!(res.owner_of(&ic), Ok(Some(dev)));
}

#[test]
fn put_emits_add_update_or_nothing() {
    let mut res = Resources::new();
    let a = RType::Light.deterministic("a");
    let b = RType::Light.deterministic("b");
    res.put(node(a, None, vec![]));
    let evs = res.hue_event_stream().events_after(None);
    assert_eq!(evs.last().unwrap().kind, EventKind::Add);
    let id = res.hue_event_stream().next_id();
    res.put(node(a, None, vec![]));
    assert_eq!(res.hue_event_stream().next_id(), id);
    res.put(node(a, None, vec![b]));
    let evs = res.hue_event_stream().events_after(None);
    assert_eq!(evs.last().unwrap().kind, EventKind::Update);
    assert_eq!(res.len(), 1);
}
