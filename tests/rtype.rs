use bifrost::rtype::RType;
use siphasher::sip::SipHasher13;
use std::hash::{Hash, Hasher};
use uuid::Uuid;

fn uuid_of(text: &str) -> u128 {
    Uuid::parse_str(text).unwrap().as_u128()
}

#[test]
fn rlink_hash_uses_input() {
    let a = RType::Room.deterministic("foo");
    let b = RType::Room.deterministic("bar");
    assert_ne!(a, b);
}

#[test]
fn rlink_hash_uses_rtype() {
    let a = RType::Room.deterministic("foo");
    let b = RType::Scene.deterministic("foo");
    assert_ne!(a, b);
}

#[test]
fn rlink_hash_deterministic() {
    assert_eq!(RType::AuthV1.deterministic("foo").rid, uuid_of("9c9dc594-12c4-5db8-bc01-3bd26c09cf0f"));
    assert_eq!(RType::Device.deterministic("foo").rid, uuid_of("fa83ad4c-fbd8-519c-b543-d7aaf2041c75"));
    assert_eq!(RType::Light.deterministic("foo").rid, uuid_of("020d5289-53f8-5051-ac97-7ea60043223e"));
    assert_eq!(RType::Room.deterministic("foo").rid, uuid_of("03585677-7f50-5379-b7a6-8c4d70d63c67"));
    assert_eq!(RType::GroupedLight.deterministic("foo").rid, uuid_of("b2126c4a-16e3-59f4-b11f-4c674c9130f5"));
    assert_eq!(RType::Scene.deterministic("foo").rid, uuid_of("02808610-c1ec-5774-8eaf-453b83cf1981"));
    assert_eq!(RType::Zone.deterministic("foo").rid, uuid_of("1cc85d96-7bb6-5e75-938c-df4207136480"));
}

#[test]
fn deterministic_is_repeatable() {
    let a = RType::Device.deterministic("hass:ha:light.kitchen:device");
    let b = RType::Device.deterministic("hass:ha:light.kitchen:device");
    assert_eq!(a, b);
    assert_eq!(a.rtype, RType::Device);
}

#[test]
fn deterministic_from_id_matches_uuid_key() {
    let bridge = RType::Bridge.deterministic("001788fffe123456");
    let dev = RType::Device.deterministic_from_id(bridge.rid);
    let dev2 = RType::Device.deterministic_from_id(bridge.rid);
    assert_eq!(dev, dev2);
    assert_ne!(dev.rid, bridge.rid);
    assert_eq!(RType::Light.type_index(), 17);
    assert_eq!(RType::InternetConnectivity.type_index(), 38);
}

fn sip13<T: Hash>(t: &T) -> u64 {
    let mut s = SipHasher13::new();
    t.hash(&mut s);
    s.finish()
}

#[test]
fn deterministic_from_id_hashes_the_id_as_std_does() {
    let id = Uuid::parse_str("03585677-7f50-5379-b7a6-8c4d70d63c67").unwrap();
    let seed = [sip13(&6u64).to_le_bytes(), sip13(&id).to_le_bytes()].concat();
    let want = Uuid::new_v5(&Uuid::NAMESPACE_OID, &seed).as_u128();
    assert_eq!(RType::Device.deterministic_from_id(id.as_u128()).rid, want);
    let seed = [sip13(&24u64).to_le_bytes(), sip13(&"foo").to_le_bytes()].concat();
    assert_eq!(RType::Room.deterministic("foo").rid, Uuid::new_v5(&Uuid::NAMESPACE_OID, &seed).as_u128());
}
