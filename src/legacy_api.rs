use vstd::prelude::*;

verus! {

/// An error entry of the legacy (v1) API.
#[derive(Debug)]
pub struct HueError {
    pub typ: u32,
    pub address: String,
    pub description: String,
}

/// One entry of a legacy API reply.
#[derive(Debug)]
pub enum HueApiResult<T> {
    Success(T),
    Error(HueError),
}

#[derive(Clone, Copy, Debug, PartialEq, Eq, Structural)]
pub enum ApiResourceType {
    Config,
    Groups,
    Lights,
    Resourcelinks,
    Rules,
    Scenes,
    Schedules,
    Sensors,
    Capabilities,
}

/// A request of the legacy API to create an application key.
#[derive(Debug)]
pub struct NewUser {
    pub devicetype: String,
    pub generateclientkey: bool,
}

#[derive(Debug)]
pub struct NewUserReply {
    pub username: String,
    pub clientkey: Option<String>,
}

#[derive(Clone, Copy, Debug, PartialEq, Eq, Structural)]
pub enum ConnectionState {
    Connected,
    Disconnected,
}

#[derive(Clone, Copy, Debug, PartialEq, Eq, Structural)]
pub struct ApiInternetServices {
    pub internet: ConnectionState,
    pub remoteaccess: ConnectionState,
    pub swupdate: ConnectionState,
    pub time: ConnectionState,
}

impl ApiInternetServices {
    /// Every service reported as connected.
    pub fn default() -> (r: Self)
        ensures
            r.internet == ConnectionState::Connected,
            r.remoteaccess == ConnectionState::Connected,
            r.swupdate == ConnectionState::Connected,
            r.time == ConnectionState::Connected,
    {
        ApiInternetServices {
            internet: ConnectionState::Connected,
            remoteaccess: ConnectionState::Connected,
            swupdate: ConnectionState::Connected,
            time: ConnectionState::Connected,
        }
    }
}

#[derive(Clone, Copy, Debug, PartialEq, Eq, Structural)]
pub struct PortalState {
    pub communication: ConnectionState,
    pub incoming: bool,
    pub outgoing: bool,
    pub signedon: bool,
}

impl PortalState {
    /// A portal that is signed on and connected both ways.
    pub fn default() -> (r: Self)
        ensures
            r == (PortalState {
                communication: ConnectionState::Connected,
                incoming: true,
                outgoing: true,
                signedon: true,
            }),
    {
        PortalState { communication: ConnectionState::Connected, incoming: true, outgoing: true, signedon: true }
    }
}

#[derive(Debug)]
pub struct ApiBackup {
    pub errorcode: u32,
    pub status: String,
}

#[derive(Clone, Copy, Debug, PartialEq, Eq, Structural)]
pub enum SwUpdateState {
    NoUpdates,
    Transferring,
    ReadyToInstall,
    AnyReadyToInstall,
}

#[derive(Clone, Copy, Debug, PartialEq, Eq, Structural)]
pub enum ApiEffect {
    NoEffect,
}

#[derive(Clone, Copy, Debug, PartialEq, Eq, Structural)]
pub enum ApiAlert {
    NoAlert,
    Select,
}

#[derive(Clone, Copy, Debug, PartialEq, Eq, Structural)]
pub enum ApiGroupType {
    Entertainment,
    LightGroup,
    Room,
    Zone,
}

#[derive(Clone, Copy, Debug, PartialEq, Eq, Structural)]
pub enum ApiGroupClass {
    LivingRoom,
    Kitchen,
    Dining,
    Bedroom,
    KidsBedroom,
    Bathroom,
    Nursery,
    Recreation,
    Office,
    Gym,
    Hallway,
    Toilet,
    FrontDoor,
    Garage,
    Terrace,
    Garden,
    Driveway,
    Carport,
    Other,
    Home,
    Downstairs,
    Upstairs,
    TopFloor,
    Attic,
    GuestRoom,
    Staircase,
    Lounge,
    ManCave,
    Computer,
    Studio,
    Music,
    TV,
    Reading,
    Closet,
    Storage,
    LaundryRoom,
    Balcony,
    Porch,
    Barbecue,
    Pool,
    Free,
}

#[derive(Debug)]
pub struct ApiGroupNew {
    pub name: Option<String>,
    pub group_type: ApiGroupType,
    pub class: ApiGroupClass,
    pub lights: Vec<String>,
}

#[derive(Clone, Copy, Debug, PartialEq, Eq, Structural)]
pub struct ApiGroupState {
    pub all_on: bool,
    pub any_on: bool,
}

#[derive(Clone, Copy, Debug, PartialEq, Eq, Structural)]
pub enum LightColorMode {
    Ct,
    Xy,
    Hs,
}

#[derive(Debug)]
pub struct ApiGroupUpdate {
    pub scene: String,
}

#[derive(Clone, Copy, Debug, PartialEq, Eq, Structural)]
pub struct Active {
    pub active: bool,
}

#[derive(Debug)]
pub struct ApiGroupUpdate2 {
    pub lights: Option<Vec<String>>,
    pub name: Option<String>,
    pub stream: Option<Active>,
}

#[derive(Clone, Copy, Debug, PartialEq, Eq, Structural)]
pub enum ApiSceneType {
    LightScene,
    GroupScene,
}

#[derive(Clone, Copy, Debug, PartialEq, Eq, Structural)]
pub enum ApiSceneVersion {
    V2,
}

#[derive(Debug)]
pub struct ApiSceneAppData {
    pub data: Option<String>,
    pub version: Option<u8>,
}

/// How many of a kind of object the bridge holds at most, and how many more
/// it can take.
#[derive(Clone, Copy, Debug, PartialEq, Eq, Structural)]
pub struct Capacity {
    pub available: u32,
    pub total: u32,
}

impl Capacity {
    pub fn new(total: u32, available: u32) -> (r: Self)
        ensures
            r == (Capacity { available, total }),
    {
        Capacity { available, total }
    }
}

#[derive(Clone, Copy, Debug, PartialEq, Eq, Structural)]
pub struct SensorsCapacity {
    pub available: u32,
    pub total: u32,
    pub clip: Capacity,
    pub zll: Capacity,
    pub zgp: Capacity,
}

#[derive(Clone, Copy, Debug, PartialEq, Eq, Structural)]
pub struct ScenesCapacity {
    pub available: u32,
    pub total: u32,
    pub lightstates: Capacity,
}

#[derive(Clone, Copy, Debug, PartialEq, Eq, Structural)]
pub struct RulesCapacity {
    pub available: u32,
    pub total: u32,
    pub conditions: Capacity,
    pub actions: Capacity,
}

#[derive(Clone, Copy, Debug, PartialEq, Eq, Structural)]
pub struct SceneCapacity {
    pub scenes: Capacity,
    pub lightstates: Capacity,
}

#[derive(Clone, Copy, Debug, PartialEq, Eq, Structural)]
pub struct StreamingCapacity {
    pub available: u32,
    pub total: u32,
    pub channels: u32,
}

} // verus!
