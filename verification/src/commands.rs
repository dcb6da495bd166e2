//! The checks the flight computer makes on commands from the web interface
//! before it acts on them.

use vstd::prelude::*;
use vstd::utf8::encode_utf8;

verus! {

/// Why new Wi-Fi credentials are refused.
#[derive(Clone, Copy, Debug, PartialEq, Eq)]
pub enum CredentialsError {
    /// The network name is empty.
    EmptySsid,
    /// The network name is longer than 32 bytes.
    SsidTooLong,
    /// The password is neither empty nor 8 to 63 bytes long.
    PasswordLength,
}

/// Checks Wi-Fi credentials before they are saved: the network name must
/// be 1 to 32 bytes long and the password empty (an open network) or 8 to
/// 63 bytes long, checked in that order.
pub fn check_wifi_credentials(ssid: &str, password: &str) -> (result: Result<(), CredentialsError>)
    ensures
        result == (if ssid@.len() == 0 {
            Err(CredentialsError::EmptySsid)
        } else if encode_utf8(ssid@).len() > 32 {
            Err(CredentialsError::SsidTooLong)
        } else if !(password@.len() == 0 || 8 <= encode_utf8(password@).len() <= 63) {
            Err(CredentialsError::PasswordLength)
        } else {
            Ok(())
        }),
{
    if ssid.is_empty() {
        return Err(CredentialsError::EmptySsid);
    }
    if ssid.as_bytes().len() > 32 {
        return Err(CredentialsError::SsidTooLong);
    }
    let password_len = password.as_bytes().len();
    if !(password.is_empty() || (8 <= password_len && password_len <= 63)) {
        return Err(CredentialsError::PasswordLength);
    }
    Ok(())
}

/// Why the servo orientation check cannot start.
#[derive(Clone, Copy, Debug, PartialEq, Eq)]
pub enum OrientationCheckError {
    /// The IMU is offline.
    ImuOffline,
    /// A servo performance test is running.
    TestRunning,
}

/// What turning the servo orientation check on or off does.
#[derive(Clone, Copy, Debug, PartialEq, Eq)]
pub struct OrientationCheckChange {
    /// Whether the check runs afterwards.
    pub running: bool,
    /// Both servo axes are enabled (when the check starts).
    pub enable_axes: bool,
    /// The check's command is cleared and the servos told to stop (when it
    /// stops).
    pub stop: bool,
}

/// Turning the orientation check on needs the IMU and no performance test
/// running; turning it off is always accepted.
pub fn set_orientation_check(running: bool, imu_present: bool, test_running: bool) -> (result: Result<
    OrientationCheckChange,
    OrientationCheckError,
>)
    ensures
        result == (if running && !imu_present {
            Err(OrientationCheckError::ImuOffline)
        } else if running && test_running {
            Err(OrientationCheckError::TestRunning)
        } else {
            Ok(OrientationCheckChange { running, enable_axes: running, stop: !running })
        }),
{
    if running {
        if !imu_present {
            return Err(OrientationCheckError::ImuOffline);
        }
        if test_running {
            return Err(OrientationCheckError::TestRunning);
        }
    }
    Ok(OrientationCheckChange { running, enable_axes: running, stop: !running })
}

/// A hardware-in-the-loop simulation may start only while no performance
/// test and no orientation check drive the motors.
pub fn hil_may_start(test_running: bool, orientation_check_running: bool) -> (allowed: bool)
    ensures
        allowed == (!test_running && !orientation_check_running),
{
    !test_running && !orientation_check_running
}

/// A request for an inertia capture is passed on only when no capture is
/// running; a repeated click during a capture is ignored.
pub fn inertia_capture_requested(capture_running: bool) -> (requested: bool)
    ensures
        requested == !capture_running,
{
    !capture_running
}

} // verus!
