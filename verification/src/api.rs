//! Telemetry and configuration types shared between the flight computer
//! and its web interface.

use vstd::prelude::*;

verus! {

/// A thrust-vector-control servo axis.
#[derive(Clone, Copy, Debug, PartialEq, Eq)]
pub enum ServoAxis {
    X,
    Y,
}

impl Default for ServoAxis {
    fn default() -> (axis: Self)
        ensures
            axis == ServoAxis::X,
    {
        ServoAxis::X
    }
}

/// The two 48-bit identity halves reported by a servo during CAN discovery.
#[derive(Clone, Copy, Debug, PartialEq, Eq)]
pub struct ServoDeviceId {
    pub chip_id1: [u8; 6],
    pub chip_id2: [u8; 6],
}

impl Default for ServoDeviceId {
    fn default() -> (id: Self)
        ensures
            forall|k: int| 0 <= k < 6 ==> id.chip_id1@[k] == 0 && id.chip_id2@[k] == 0,
    {
        ServoDeviceId { chip_id1: [0u8; 6], chip_id2: [0u8; 6] }
    }
}

/// Latest feedback from one servo.
#[derive(Clone, Copy, Debug, PartialEq, Eq)]
pub struct ServoState {
    pub position: u16,
    pub velocity: i16,
    pub current: i16,
    pub sensor_detected: bool,
}

impl Default for ServoState {
    fn default() -> (state: Self)
        ensures
            state == (ServoState { position: 0, velocity: 0, current: 0, sensor_detected: false }),
    {
        ServoState { position: 0, velocity: 0, current: 0, sensor_detected: false }
    }
}

#[derive(Clone, Debug, PartialEq, Eq)]
pub struct WifiCredentials {
    pub ssid: String,
    pub password: String,
}

impl Default for WifiCredentials {
    fn default() -> (credentials: Self)
        ensures
            credentials.ssid@ == Seq::<char>::empty(),
            credentials.password@ == Seq::<char>::empty(),
    {
        WifiCredentials { ssid: String::new(), password: String::new() }
    }
}

/// Whether the flight computer joins a network or opens its own.
#[derive(Clone, Copy, Debug, PartialEq, Eq)]
pub enum WifiConnectionType {
    ConnectToExternal,
    StartAccessPoint,
}

impl Default for WifiConnectionType {
    fn default() -> (kind: Self)
        ensures
            kind == WifiConnectionType::StartAccessPoint,
    {
        WifiConnectionType::StartAccessPoint
    }
}

#[derive(Clone, Debug, PartialEq, Eq)]
pub struct WifiConnectionConfiguration {
    pub connection_type: WifiConnectionType,
    pub credentials: WifiCredentials,
}

impl Default for WifiConnectionConfiguration {
    fn default() -> (configuration: Self)
        ensures
            configuration.connection_type == WifiConnectionType::StartAccessPoint,
            configuration.credentials.ssid@ == Seq::<char>::empty(),
            configuration.credentials.password@ == Seq::<char>::empty(),
    {
        WifiConnectionConfiguration {
            connection_type: WifiConnectionType::default(),
            credentials: WifiCredentials::default(),
        }
    }
}

/// Servo test capture: pairs of sample time and encoder position.
#[derive(Clone, Debug, PartialEq, Eq)]
pub struct TestData {
    pub data: Vec<(u16, u16)>,
}

impl Default for TestData {
    fn default() -> (test_data: Self)
        ensures
            test_data.data@ == Seq::<(u16, u16)>::empty(),
    {
        TestData { data: Vec::new() }
    }
}

} // verus!
