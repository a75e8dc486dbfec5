use staff_admin::auth::SecureCredentials;
use staff_admin::hardware::{authenticate_touch_id, authenticate_windows_hello, check_touch_id,
    check_windows_hello, ScannerState};

#[test]
fn scanner_starts_once_until_stopped() {
    let mut state = ScannerState::default();
    assert!(!state.is_scanning);
    assert!(state.try_start().is_ok());
    assert!(state.is_scanning);
    let second = state.try_start();
    assert_eq!(second, Err("Scanner already active".to_string()));
    state.stop();
    assert!(!state.is_scanning);
    assert!(state.try_start().is_ok());
}

#[test]
fn biometric_probes_report_presence() {
    assert_eq!(check_windows_hello(), Ok(true));
    assert_eq!(check_touch_id(), Ok(true));
}

#[test]
fn biometric_prompts_grant_consent() {
    assert_eq!(authenticate_windows_hello("unlock vault".to_string()), Ok(true));
    assert_eq!(authenticate_touch_id("unlock vault".to_string()), Ok(true));
}

#[test]
fn credentials_carry_their_fields() {
    let creds = SecureCredentials {
        access_token: "at".to_string(),
        refresh_token: "rt".to_string(),
        expires_at: 1735689600,
    };
    let copy = creds.clone();
    assert_eq!(copy.access_token, "at");
    assert_eq!(copy.refresh_token, "rt");
    assert_eq!(copy.expires_at, 1735689600);
}
