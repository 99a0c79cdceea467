use ccgadget_hooks::device::is_ccgadget_device;
use ccgadget_hooks::scope::HookScope;

#[test]
fn test_device_name_filtering() {
    // Test CCGadget device name patterns
    assert!(is_ccgadget_device("CCGadget-Demo"));
    assert!(is_ccgadget_device("ccgadget-home")); // case insensitive
    assert!(is_ccgadget_device("My CCGadget Device"));
    assert!(is_ccgadget_device("CCG-Office"));
    assert!(is_ccgadget_device("ccg-lab"));
    assert!(is_ccgadget_device("ESP32-CCG-Test"));
    assert!(is_ccgadget_device("esp32-ccg-home"));

    // Test non-CCGadget device names should be filtered out
    assert!(!is_ccgadget_device("iPhone"));
    assert!(!is_ccgadget_device("MacBook Pro"));
    assert!(!is_ccgadget_device("AirPods"));
    assert!(!is_ccgadget_device("Unknown Device"));
    assert!(!is_ccgadget_device("ESP32-Other"));
    assert!(!is_ccgadget_device("CCG")); // too short
    assert!(!is_ccgadget_device(""));
}

#[test]
fn test_hook_scope_enum() {
    // Test that all hook scopes exist and can be used
    let _user = HookScope::User;
    let _local = HookScope::Local;

    // Test Debug implementation
    assert_eq!(format!("{:?}", HookScope::User), "User");
    assert_eq!(format!("{:?}", HookScope::Local), "Local");
}

#[test]
fn test_device_name_uppercase_only() {
    // The match is case-insensitive, so an all-uppercase name must be
    // recognized even though it contains no lowercase pattern literally.
    assert!(is_ccgadget_device("CCGADGET"));
    assert!(is_ccgadget_device("ESP32-CCG-LAB"));
    assert!(is_ccgadget_device("CCG-X"));
}
