//! How the flight computer brings up Wi-Fi: as a client of the configured
//! network, or as its own access point, and what it then reports as its
//! Wi-Fi state.

use vstd::prelude::*;
use vstd::utf8::encode_utf8;
use crate::api::{WifiConnectionConfiguration, WifiConnectionType, WifiCredentials};

verus! {

/// The longest SSID, in bytes, that the Wi-Fi driver's client
/// configuration holds.
pub const SSID_CAPACITY: usize = 32;

/// The longest passphrase, in bytes, that the Wi-Fi driver's client
/// configuration holds.
pub const PASSWORD_CAPACITY: usize = 64;

/// Why a client configuration cannot be used.
#[derive(Clone, Copy, Debug, PartialEq, Eq)]
pub enum WifiError {
    SsidTooLong,
    PasswordTooLong,
}

/// How to bring the network up.
#[derive(Debug)]
pub enum WifiPlan {
    /// Open the board's own access point.
    AccessPoint,
    /// Join the external network `ssid`; `protected` selects WPA2-Personal
    /// with `password`, an open network otherwise.
    Client { ssid: String, password: String, protected: bool },
}

/// The plan for a configuration: an access point when one is asked for;
/// otherwise the client settings, refused when the SSID or the password
/// does not fit the driver's configuration (the SSID is checked first).
pub fn wifi_plan(configuration: &WifiConnectionConfiguration) -> (plan: Result<WifiPlan, WifiError>)
    ensures
        configuration.connection_type is StartAccessPoint ==> plan matches Ok(WifiPlan::AccessPoint),
        configuration.connection_type is ConnectToExternal ==> {
            let ssid = configuration.credentials.ssid@;
            let password = configuration.credentials.password@;
            if encode_utf8(ssid).len() > SSID_CAPACITY {
                plan == Err::<WifiPlan, WifiError>(WifiError::SsidTooLong)
            } else if encode_utf8(password).len() > PASSWORD_CAPACITY {
                plan == Err::<WifiPlan, WifiError>(WifiError::PasswordTooLong)
            } else {
                plan matches Ok(WifiPlan::Client { ssid: s, password: p, protected }) && s@ == ssid && p@ == password
                    && protected == (password.len() > 0)
            }
        },
{
    match configuration.connection_type {
        WifiConnectionType::StartAccessPoint => Ok(WifiPlan::AccessPoint),
        WifiConnectionType::ConnectToExternal => {
            let ssid = &configuration.credentials.ssid;
            let password = &configuration.credentials.password;
            if ssid.as_str().as_bytes().len() > SSID_CAPACITY {
                return Err(WifiError::SsidTooLong);
            }
            if password.as_str().as_bytes().len() > PASSWORD_CAPACITY {
                return Err(WifiError::PasswordTooLong);
            }
            let protected = !password.as_str().is_empty();
            Ok(WifiPlan::Client { ssid: ssid.clone(), password: password.clone(), protected })
        },
    }
}

/// The Wi-Fi state reported once the client has connected: the
/// configuration with its password left out.
pub fn connected_state(configuration: &WifiConnectionConfiguration) -> (state: WifiConnectionConfiguration)
    ensures
        state.connection_type == configuration.connection_type,
        state.credentials.ssid@ == configuration.credentials.ssid@,
        state.credentials.password@ == Seq::<char>::empty(),
{
    WifiConnectionConfiguration {
        connection_type: configuration.connection_type,
        credentials: WifiCredentials { ssid: configuration.credentials.ssid.clone(), password: String::new() },
    }
}

/// The Wi-Fi state reported once the board's own access point is up: an
/// open network named `LRC-wifi`.
pub fn access_point_state() -> (state: WifiConnectionConfiguration)
    ensures
        state.connection_type == WifiConnectionType::StartAccessPoint,
        state.credentials.ssid@ == "LRC-wifi"@,
        state.credentials.password@ == Seq::<char>::empty(),
{
    WifiConnectionConfiguration {
        connection_type: WifiConnectionType::StartAccessPoint,
        credentials: WifiCredentials { ssid: String::from_str("LRC-wifi"), password: String::new() },
    }
}

} // verus!
