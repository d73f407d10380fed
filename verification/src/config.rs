//! Validation of the radar configuration entered on the setup page.

use vstd::prelude::*;

verus! {

/// Why a configuration was refused.
#[derive(Clone, Copy, Debug, Eq, PartialEq, Structural)]
pub enum RadarConfigError {
    InvalidLatitude,
    InvalidLongitude,
    InvalidRadius,
    InvalidTimezone,
}

/// Smallest accepted offset of the local time zone, in minutes (UTC-12).
pub const MIN_TIMEZONE_OFFSET_MINUTES: i32 = -720;

/// Largest accepted offset of the local time zone, in minutes (UTC+14).
pub const MAX_TIMEZONE_OFFSET_MINUTES: i32 = 840;

/// A time-zone offset lies between UTC-12 and UTC+14.
pub fn timezone_offset_valid(minutes: i32) -> (valid: bool)
    ensures
        valid == (MIN_TIMEZONE_OFFSET_MINUTES <= minutes <= MAX_TIMEZONE_OFFSET_MINUTES),
{
    MIN_TIMEZONE_OFFSET_MINUTES <= minutes && minutes <= MAX_TIMEZONE_OFFSET_MINUTES
}

/// The verdict on a configuration, given whether its latitude is finite and
/// within ±90°, its longitude finite and within ±180°, and its radius finite
/// and within 1 to 250 km: the first failing check, in that order and then
/// the time-zone offset, names the error.
pub open spec fn config_verdict(
    latitude_valid: bool,
    longitude_valid: bool,
    radius_valid: bool,
    timezone_offset_minutes: i32,
) -> Result<(), RadarConfigError> {
    if !latitude_valid {
        Err(RadarConfigError::InvalidLatitude)
    } else if !longitude_valid {
        Err(RadarConfigError::InvalidLongitude)
    } else if !radius_valid {
        Err(RadarConfigError::InvalidRadius)
    } else if !(MIN_TIMEZONE_OFFSET_MINUTES <= timezone_offset_minutes
        <= MAX_TIMEZONE_OFFSET_MINUTES) {
        Err(RadarConfigError::InvalidTimezone)
    } else {
        Ok(())
    }
}

/// Checks a configuration; the coordinate and radius checks come as the
/// results of their range tests.
pub fn validate_config(
    latitude_valid: bool,
    longitude_valid: bool,
    radius_valid: bool,
    timezone_offset_minutes: i32,
) -> (verdict: Result<(), RadarConfigError>)
    ensures
        verdict == config_verdict(
            latitude_valid,
            longitude_valid,
            radius_valid,
            timezone_offset_minutes,
        ),
{
    if !latitude_valid {
        return Err(RadarConfigError::InvalidLatitude);
    }
    if !longitude_valid {
        return Err(RadarConfigError::InvalidLongitude);
    }
    if !radius_valid {
        return Err(RadarConfigError::InvalidRadius);
    }
    if !timezone_offset_valid(timezone_offset_minutes) {
        return Err(RadarConfigError::InvalidTimezone);
    }
    Ok(())
}

} // verus!
