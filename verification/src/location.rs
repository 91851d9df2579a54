//! Sharing a location: the messages for the ways getting it can fail.

use vstd::prelude::*;

verus! {

/// The ways the device's location can fail to be read.
#[derive(Clone, Copy, Debug, PartialEq, Eq, Structural)]
pub enum LocationError {
    AuthorizationDenied,
    TemporarilyUnavailable,
    Network,
    PermanentlyUnavailable,
    AndroidEnvironment,
    NotMainThread,
    Unknown,
}

pub open spec fn location_error_text(e: LocationError) -> Seq<char> {
    match e {
        LocationError::AuthorizationDenied =>
            "Permission denied. Give Robrix location access in your device's settings, then try again."@,
        LocationError::TemporarilyUnavailable =>
            "Your location isn't available right now. Please try again in a moment."@,
        LocationError::Network =>
            "A network problem prevented getting your location. Check your connection and try again."@,
        LocationError::PermanentlyUnavailable => "Location services aren't available on this device."@,
        _ => "Couldn't get your location. Please try again."@,
    }
}

/// The message shown to the user for a location error.
pub fn location_error_message(error: LocationError) -> (r: &'static str)
    ensures
        r@ == location_error_text(error),
{
    match error {
        LocationError::AuthorizationDenied =>
            "Permission denied. Give Robrix location access in your device's settings, then try again.",
        LocationError::TemporarilyUnavailable =>
            "Your location isn't available right now. Please try again in a moment.",
        LocationError::Network =>
            "A network problem prevented getting your location. Check your connection and try again.",
        LocationError::PermanentlyUnavailable => "Location services aren't available on this device.",
        LocationError::AndroidEnvironment | LocationError::NotMainThread | LocationError::Unknown =>
            "Couldn't get your location. Please try again.",
    }
}

} // verus!
