use light_robot_core::api::{WifiConnectionConfiguration, WifiConnectionType, WifiCredentials};
use light_robot_core::wifi::{access_point_state, connected_state, wifi_plan, WifiError, WifiPlan};

fn client(ssid: &str, password: &str) -> WifiConnectionConfiguration {
    WifiConnectionConfiguration {
        connection_type: WifiConnectionType::ConnectToExternal,
        credentials: WifiCredentials { ssid: ssid.to_string(), password: password.to_string() },
    }
}

#[test]
fn access_point_is_planned_as_asked() {
    let configuration = WifiConnectionConfiguration {
        connection_type: WifiConnectionType::StartAccessPoint,
        credentials: WifiCredentials { ssid: "ignored".to_string(), password: "x".repeat(100) },
    };
    assert!(matches!(wifi_plan(&configuration), Ok(WifiPlan::AccessPoint)));
}

#[test]
fn client_with_password_uses_wpa2() {
    match wifi_plan(&client("home", "secret")) {
        Ok(WifiPlan::Client { ssid, password, protected }) => {
            assert_eq!(ssid, "home");
            assert_eq!(password, "secret");
            assert!(protected);
        }
        other => panic!("unexpected plan {:?}", other),
    }
}

#[test]
fn client_without_password_joins_an_open_network() {
    assert!(matches!(wifi_plan(&client("cafe", "")), Ok(WifiPlan::Client { protected: false, .. })));
}

#[test]
fn overlong_credentials_are_refused() {
    let ssid_32 = "s".repeat(32);
    let ssid_33 = "s".repeat(33);
    let password_64 = "p".repeat(64);
    let password_65 = "p".repeat(65);
    assert!(matches!(wifi_plan(&client(&ssid_32, &password_64)), Ok(WifiPlan::Client { .. })));
    assert!(matches!(wifi_plan(&client(&ssid_33, "")), Err(WifiError::SsidTooLong)));
    assert!(matches!(wifi_plan(&client("home", &password_65)), Err(WifiError::PasswordTooLong)));
    assert!(matches!(wifi_plan(&client(&ssid_33, &password_65)), Err(WifiError::SsidTooLong)));
}

#[test]
fn capacity_counts_bytes_not_characters() {
    // 17 two-byte characters: 34 bytes.
    assert!(matches!(wifi_plan(&client(&"é".repeat(17), "")), Err(WifiError::SsidTooLong)));
    assert!(matches!(wifi_plan(&client(&"é".repeat(16), "")), Ok(WifiPlan::Client { .. })));
}

#[test]
fn connected_state_leaves_out_the_password() {
    let state = connected_state(&client("home", "secret"));
    assert_eq!(state.connection_type, WifiConnectionType::ConnectToExternal);
    assert_eq!(state.credentials.ssid, "home");
    assert_eq!(state.credentials.password, "");
}

#[test]
fn access_point_state_names_the_board_network() {
    let state = access_point_state();
    assert_eq!(state.connection_type, WifiConnectionType::StartAccessPoint);
    assert_eq!(state.credentials.ssid, "LRC-wifi");
    assert_eq!(state.credentials.password, "");
}
