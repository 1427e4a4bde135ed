use vstd::prelude::*;
use vstd::string::StrSliceExecFns;
use vstd::utf8::encode_utf8;

use siphasher::sip::SipHasher13;
use std::hash::Hasher;

verus! {

/// The kind of a Hue resource, as it appears in every cross-reference.
#[derive(Clone, Copy, Debug, PartialEq, Eq, Structural, Hash, PartialOrd, Ord)]
pub enum RType {
    AuthV1,
    BehaviorInstance,
    BehaviorScript,
    Bridge,
    BridgeHome,
    Button,
    CameraMotion,
    Contact,
    Device,
    DevicePower,
    DeviceSoftwareUpdate,
    Entertainment,
    EntertainmentConfiguration,
    GeofenceClient,
    Geolocation,
    GroupedLight,
    GroupedLightLevel,
    GroupedMotion,
    Homekit,
    InternetConnectivity,
    Light,
    LightLevel,
    Matter,
    MatterFabric,
    Motion,
    PrivateGroup,
    PublicImage,
    RelativeRotary,
    Room,
    Scene,
    ServiceGroup,
    SmartScene,
    Taurus,
    Tamper,
    Temperature,
    ZgpConnectivity,
    ZigbeeConnectivity,
    ZigbeeDeviceDiscovery,
    Zone,
}

/// A reference to a resource: its 128-bit id and its kind.
#[derive(Clone, Copy, Debug, PartialEq, Eq, Structural, Hash, PartialOrd, Ord)]
pub struct ResourceLink {
    pub rid: u128,
    pub rtype: RType,
}

impl RType {
    /// The number that stands for this kind in derived identities.
    /// These numbers are fixed for all time: a new kind takes a fresh one.
    pub open spec fn index(self) -> u64 {
        match self {
            RType::AuthV1 => 0,
            RType::BehaviorInstance => 1,
            RType::BehaviorScript => 2,
            RType::Bridge => 3,
            RType::BridgeHome => 4,
            RType::Button => 5,
            RType::Device => 6,
            RType::DevicePower => 7,
            RType::DeviceSoftwareUpdate => 8,
            RType::Entertainment => 9,
            RType::EntertainmentConfiguration => 10,
            RType::GeofenceClient => 11,
            RType::Geolocation => 12,
            RType::GroupedLight => 13,
            RType::GroupedLightLevel => 14,
            RType::GroupedMotion => 15,
            RType::Homekit => 16,
            RType::Light => 17,
            RType::LightLevel => 18,
            RType::Matter => 19,
            RType::Motion => 20,
            RType::PrivateGroup => 21,
            RType::PublicImage => 22,
            RType::RelativeRotary => 23,
            RType::Room => 24,
            RType::Scene => 25,
            RType::SmartScene => 26,
            RType::Taurus => 27,
            RType::Temperature => 28,
            RType::ZigbeeConnectivity => 29,
            RType::ZigbeeDeviceDiscovery => 30,
            RType::Zone => 31,
            RType::CameraMotion => 32,
            RType::Contact => 33,
            RType::MatterFabric => 34,
            RType::ServiceGroup => 35,
            RType::Tamper => 36,
            RType::ZgpConnectivity => 37,
            RType::InternetConnectivity => 38,
        }
    }

    /// The fixed number of this kind (see `index`).
    pub fn type_index(self) -> (r: u64)
        ensures
            r == self.index(),
    {
        match self {
            RType::AuthV1 => 0,
            RType::BehaviorInstance => 1,
            RType::BehaviorScript => 2,
            RType::Bridge => 3,
            RType::BridgeHome => 4,
            RType::Button => 5,
            RType::Device => 6,
            RType::DevicePower => 7,
            RType::DeviceSoftwareUpdate => 8,
            RType::Entertainment => 9,
            RType::EntertainmentConfiguration => 10,
            RType::GeofenceClient => 11,
            RType::Geolocation => 12,
            RType::GroupedLight => 13,
            RType::GroupedLightLevel => 14,
            RType::GroupedMotion => 15,
            RType::Homekit => 16,
            RType::Light => 17,
            RType::LightLevel => 18,
            RType::Matter => 19,
            RType::Motion => 20,
            RType::PrivateGroup => 21,
            RType::PublicImage => 22,
            RType::RelativeRotary => 23,
            RType::Room => 24,
            RType::Scene => 25,
            RType::SmartScene => 26,
            RType::Taurus => 27,
            RType::Temperature => 28,
            RType::ZigbeeConnectivity => 29,
            RType::ZigbeeDeviceDiscovery => 30,
            RType::Zone => 31,
            RType::CameraMotion => 32,
            RType::Contact => 33,
            RType::MatterFabric => 34,
            RType::ServiceGroup => 35,
            RType::Tamper => 36,
            RType::ZgpConnectivity => 37,
            RType::InternetConnectivity => 38,
        }
    }

    /// A link of this kind to the given id.
    pub fn link_to(self, rid: u128) -> (r: ResourceLink)
        ensures
            r == (ResourceLink { rid, rtype: self }),
    {
        ResourceLink { rid, rtype: self }
    }

    /// The link whose id is derived from this kind and a textual key.
    pub fn deterministic(self, key: &str) -> (r: ResourceLink)
        ensures
            r.rtype == self,
            r.rid == derived_id(self, key_bytes_of_str(key@)),
    {
        let mut key_bytes = key.as_bytes_vec();
        key_bytes.push(0xffu8);
        proof {
            assert(key_bytes@ =~= key_bytes_of_str(key@));
        }
        self.link_to(derive_rid(self, &key_bytes))
    }

    /// The link whose id is derived from this kind and the id of another
    /// resource (the key being that id's 16 bytes in network order).
    pub fn deterministic_from_id(self, id: u128) -> (r: ResourceLink)
        ensures
            r.rtype == self,
            r.rid == derived_id(self, key_bytes_of_id(id)),
    {
        let key_bytes = be128_vec(id);
        self.link_to(derive_rid(self, &key_bytes))
    }
}

/// What SipHash-1-3 with the all-zero key gives on a byte string.
pub uninterp spec fn siphash13_of(bytes: Seq<u8>) -> u64;

/// The UUID of version 5 that the OID namespace and a name give.
pub uninterp spec fn uuid_v5_oid_of(name: Seq<u8>) -> u128;

/// The eight bytes of `x`, least significant first.
pub open spec fn le64(x: u64) -> Seq<u8> {
    seq![
        (x & 0xff) as u8,
        ((x >> 8u64) & 0xff) as u8,
        ((x >> 16u64) & 0xff) as u8,
        ((x >> 24u64) & 0xff) as u8,
        ((x >> 32u64) & 0xff) as u8,
        ((x >> 40u64) & 0xff) as u8,
        ((x >> 48u64) & 0xff) as u8,
        ((x >> 56u64) & 0xff) as u8,
    ]
}

/// The sixteen bytes of `x`, most significant first.
pub open spec fn be128(x: u128) -> Seq<u8> {
    Seq::new(16, |i: int| ((x >> ((15 - i) * 8) as u128) & 0xff) as u8)
}

/// The bytes that a textual key is hashed as: its UTF-8 encoding and a
/// closing 0xff byte.
pub open spec fn key_bytes_of_str(key: Seq<char>) -> Seq<u8> {
    encode_utf8(key) + seq![0xffu8]
}

/// The bytes that an id used as a key is hashed as: its 16 bytes in
/// network order.
pub open spec fn key_bytes_of_id(id: u128) -> Seq<u8> {
    be128(id)
}

/// The id derived from a kind and the hashed bytes of a key: the UUIDv5 (OID
/// namespace) of the two 64-bit SipHash-1-3 values, of the kind's fixed
/// number and of the key, each written least significant byte first.
pub open spec fn derived_id(t: RType, key_bytes: Seq<u8>) -> u128 {
    uuid_v5_oid_of(le64(siphash13_of(le64(t.index()))) + le64(siphash13_of(key_bytes)))
}

fn le64_vec(x: u64) -> (r: Vec<u8>)
    ensures
        r@ == le64(x),
{
    let mut v: Vec<u8> = Vec::new();
    v.push((x & 0xff) as u8);
    v.push(((x >> 8u64) & 0xff) as u8);
    v.push(((x >> 16u64) & 0xff) as u8);
    v.push(((x >> 24u64) & 0xff) as u8);
    v.push(((x >> 32u64) & 0xff) as u8);
    v.push(((x >> 40u64) & 0xff) as u8);
    v.push(((x >> 48u64) & 0xff) as u8);
    v.push(((x >> 56u64) & 0xff) as u8);
    proof {
        assert(v@ =~= le64(x));
    }
    v
}

fn be128_vec(x: u128) -> (r: Vec<u8>)
    ensures
        r@ == be128(x),
{
    let mut v: Vec<u8> = Vec::new();
    let mut i: u32 = 0;
    while i < 16
        invariant
            0 <= i <= 16,
            v@.len() == i,
            forall|j: int| 0 <= j < i ==> v@[j] == be128(x)[j],
        decreases 16 - i,
    {
        let shift: u32 = (15 - i) * 8;
        v.push(((x >> shift) & 0xff) as u8);
        i = i + 1;
    }
    proof {
        assert(v@ =~= be128(x));
    }
    v
}

fn derive_rid(t: RType, key_bytes: &Vec<u8>) -> (r: u128)
    ensures
        r == derived_id(t, key_bytes@),
{
    let h1 = siphash13(&le64_vec(t.type_index()));
    let h2 = siphash13(key_bytes);
    let mut seed = le64_vec(h1);
    let mut tail = le64_vec(h2);
    seed.append(&mut tail);
    uuid_v5_oid(&seed)
}

/// Relies on siphasher's `SipHasher13` (created with `new`, fed with one
/// `write`, read with `finish`): the result depends on the bytes alone.
#[verifier::external_body]
fn siphash13(bytes: &Vec<u8>) -> (r: u64)
    ensures
        r == siphash13_of(bytes@),
{
    let mut h = SipHasher13::new();
    h.write(bytes.as_slice());
    h.finish()
}

/// Relies on uuid's `Uuid::new_v5` with `Uuid::NAMESPACE_OID`, read back with
/// `as_u128`: the result depends on the name alone.
#[verifier::external_body]
fn uuid_v5_oid(name: &Vec<u8>) -> (r: u128)
    ensures
        r == uuid_v5_oid_of(name@),
{
    uuid::Uuid::new_v5(&uuid::Uuid::NAMESPACE_OID, name.as_slice()).as_u128()
}

} // verus!
