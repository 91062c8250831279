use vstd::prelude::*;
use vstd::std_specs::convert::FromSpecImpl;

verus! {

/// `async_hid::HidError`, the failure of the HID transport. Opaque here: it is
/// only carried from the transport to the caller.
#[verifier::external_type_specification]
#[verifier::external_body]
pub struct ExHidError(async_hid::HidError);

/// `std::str::Utf8Error`, the failure of decoding bytes as UTF-8. Opaque here.
#[verifier::external_type_specification]
#[verifier::external_body]
pub struct ExUtf8Error(std::str::Utf8Error);

/// `image::ImageError`, the failure of the image codec. Opaque here.
#[verifier::external_type_specification]
#[verifier::external_body]
pub struct ExImageError(image::ImageError);

/// `std::sync::PoisonError`, the failure of taking a lock whose holder panicked.
/// Opaque here.
#[verifier::external_type_specification]
#[verifier::external_body]
#[verifier::reject_recursive_types(T)]
pub struct ExPoisonError<T>(std::sync::PoisonError<T>);

/// Errors that can occur while working with devices
#[derive(Debug)]
pub enum MirajazzError {
    /// Watcher is already initialized
    WatcherAlreadyInitialized,
    /// No device found for provided device info
    DeviceNotFoundError,
    /// Invalid device provided
    InvalidDeviceError,
    /// The HID transport failed
    HidError(async_hid::HidError),
    /// Failed to convert bytes into string
    Utf8Error(std::str::Utf8Error),
    /// Failed to encode image
    ImageError(image::ImageError),
    /// Reader mutex was poisoned
    PoisonError,
    /// There's literally nowhere to write the image
    NoScreen,
    /// Key index is invalid
    InvalidKeyIndex,
    /// Unrecognized Product ID
    UnrecognizedPID,
    /// The device doesn't support doing that
    UnsupportedOperation,
    /// Device sent unexpected data
    BadData,
}

impl From<async_hid::HidError> for MirajazzError {
    fn from(e: async_hid::HidError) -> (r: Self) {
        MirajazzError::HidError(e)
    }
}

impl FromSpecImpl<async_hid::HidError> for MirajazzError {
    open spec fn obeys_from_spec() -> bool {
        true
    }

    open spec fn from_spec(e: async_hid::HidError) -> Self {
        MirajazzError::HidError(e)
    }
}

impl From<std::str::Utf8Error> for MirajazzError {
    fn from(e: std::str::Utf8Error) -> (r: Self) {
        MirajazzError::Utf8Error(e)
    }
}

impl FromSpecImpl<std::str::Utf8Error> for MirajazzError {
    open spec fn obeys_from_spec() -> bool {
        true
    }

    open spec fn from_spec(e: std::str::Utf8Error) -> Self {
        MirajazzError::Utf8Error(e)
    }
}

impl From<image::ImageError> for MirajazzError {
    fn from(e: image::ImageError) -> (r: Self) {
        MirajazzError::ImageError(e)
    }
}

impl FromSpecImpl<image::ImageError> for MirajazzError {
    open spec fn obeys_from_spec() -> bool {
        true
    }

    open spec fn from_spec(e: image::ImageError) -> Self {
        MirajazzError::ImageError(e)
    }
}

impl<T> From<std::sync::PoisonError<T>> for MirajazzError {
    fn from(_value: std::sync::PoisonError<T>) -> (r: Self) {
        MirajazzError::PoisonError
    }
}

impl<T> FromSpecImpl<std::sync::PoisonError<T>> for MirajazzError {
    open spec fn obeys_from_spec() -> bool {
        true
    }

    open spec fn from_spec(_value: std::sync::PoisonError<T>) -> Self {
        MirajazzError::PoisonError
    }
}

} // verus!
