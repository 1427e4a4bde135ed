use vstd::prelude::*;

verus! {

#[derive(Clone, Copy, Debug, PartialEq, Eq, Structural)]
pub struct ButtonMetadata {
    pub control_id: u32,
}

#[derive(Debug)]
pub struct DollarRef {
    pub dref: Option<String>,
}

#[derive(Debug)]
pub struct GeofenceClient {
    pub name: String,
}

#[derive(Debug)]
pub struct Homekit {
    pub status: String,
    pub status_values: Vec<String>,
}

#[derive(Clone, Copy, Debug, PartialEq, Eq, Structural)]
pub struct Matter {
    pub has_qr_code: bool,
    pub max_fabrics: u32,
}

#[derive(Clone, Copy, Debug, PartialEq, Eq, Structural)]
pub struct PrivateGroup {}

#[derive(Clone, Copy, Debug, PartialEq, Eq, Structural)]
pub struct PublicImage {}

#[derive(Clone, Copy, Debug, PartialEq, Eq, Structural)]
pub enum InternetConnectivityStatus {
    Connected,
    Disconnected,
}

#[derive(Clone, Copy, Debug, PartialEq, Eq, Structural)]
pub enum ZigbeeConnectivityStatus {
    Connected,
    ConnectivityIssue,
}

#[derive(Debug)]
pub struct TimeZone {
    pub time_zone: String,
}

} // verus!
