use esp_radar::config::{timezone_offset_valid, validate_config, RadarConfigError};

#[test]
fn valid_configuration() {
    assert_eq!(validate_config(true, true, true, 60), Ok(()));
    assert_eq!(validate_config(true, true, true, -720), Ok(()));
    assert_eq!(validate_config(true, true, true, 840), Ok(()));
}

#[test]
fn each_error_in_order() {
    assert_eq!(validate_config(false, false, false, 9999), Err(RadarConfigError::InvalidLatitude));
    assert_eq!(validate_config(true, false, false, 9999), Err(RadarConfigError::InvalidLongitude));
    assert_eq!(validate_config(true, true, false, 9999), Err(RadarConfigError::InvalidRadius));
    assert_eq!(validate_config(true, true, true, 841), Err(RadarConfigError::InvalidTimezone));
    assert_eq!(validate_config(true, true, true, -721), Err(RadarConfigError::InvalidTimezone));
}

#[test]
fn timezone_range() {
    assert!(timezone_offset_valid(0));
    assert!(!timezone_offset_valid(i32::MIN));
    assert!(!timezone_offset_valid(i32::MAX));
}
