use light_robot_core::commands::{
    check_wifi_credentials, hil_may_start, inertia_capture_requested, set_orientation_check, CredentialsError,
    OrientationCheckChange, OrientationCheckError,
};

#[test]
fn wifi_credentials_are_checked_in_order() {
    assert_eq!(check_wifi_credentials("home", "secret12"), Ok(()));
    assert_eq!(check_wifi_credentials("home", ""), Ok(()));
    assert_eq!(check_wifi_credentials("", "x"), Err(CredentialsError::EmptySsid));
    assert_eq!(check_wifi_credentials(&"s".repeat(33), "x"), Err(CredentialsError::SsidTooLong));
    assert_eq!(check_wifi_credentials(&"s".repeat(32), &"p".repeat(63)), Ok(()));
    assert_eq!(check_wifi_credentials("home", "short"), Err(CredentialsError::PasswordLength));
    assert_eq!(check_wifi_credentials("home", &"p".repeat(64)), Err(CredentialsError::PasswordLength));
    // Lengths count bytes: four three-byte characters make 12 bytes.
    assert_eq!(check_wifi_credentials("home", "€€€€"), Ok(()));
    assert_eq!(check_wifi_credentials(&"€".repeat(11), ""), Err(CredentialsError::SsidTooLong));
}

#[test]
fn orientation_check_needs_the_imu_and_no_test() {
    assert_eq!(set_orientation_check(true, false, false), Err(OrientationCheckError::ImuOffline));
    assert_eq!(set_orientation_check(true, true, true), Err(OrientationCheckError::TestRunning));
    assert_eq!(
        set_orientation_check(true, true, false),
        Ok(OrientationCheckChange { running: true, enable_axes: true, stop: false })
    );
    assert_eq!(
        set_orientation_check(false, false, true),
        Ok(OrientationCheckChange { running: false, enable_axes: false, stop: true })
    );
}

#[test]
fn hil_and_inertia_capture_gates() {
    assert!(hil_may_start(false, false));
    assert!(!hil_may_start(true, false));
    assert!(!hil_may_start(false, true));
    assert!(inertia_capture_requested(false));
    assert!(!inertia_capture_requested(true));
}
