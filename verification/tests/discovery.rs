use mirajazz::device::{extract_str, list_devices, matches_identity};
use mirajazz::error::MirajazzError;
use mirajazz::types::{
    DeviceLifecycleEvent, HidDeviceInfo, ImageFormat, ImageMirroring, ImageMode, ImageRotation,
};

fn info(vendor_id: u16, product_id: u16, serial: Option<&str>) -> HidDeviceInfo {
    HidDeviceInfo {
        vendor_id,
        product_id,
        usage_id: 2,
        usage_page: 65440,
        serial_number: serial.map(|s| s.to_string()),
    }
}

#[test]
fn list_devices_filters_by_vendor() {
    let devices = [
        info(0x0300, 1, Some("a")),
        info(0x0400, 2, Some("b")),
        info(0x0500, 3, Some("c")),
    ];
    let found = list_devices(&[0x0300, 0x0500], &devices);
    assert_eq!(
        found,
        vec![(0x0300, 1, "a".to_string()), (0x0500, 3, "c".to_string())]
    );
    assert!(list_devices(&[], &devices).is_empty());
    assert!(list_devices(&[0x0300], &[]).is_empty());
}

#[test]
fn list_devices_drops_devices_without_serial() {
    let devices = [info(0x0300, 1, None), info(0x0300, 2, Some("b"))];
    assert_eq!(list_devices(&[0x0300], &devices), vec![(0x0300, 2, "b".to_string())]);
}

#[test]
fn list_devices_collapses_duplicates() {
    let devices = [
        info(0x0300, 1, Some("a")),
        info(0x0300, 1, Some("a")),
        info(0x0300, 1, Some("b")),
        info(0x0300, 2, Some("a")),
        info(0x0300, 1, Some("a")),
    ];
    let found = list_devices(&[0x0300, 0x0300], &devices);
    assert_eq!(
        found,
        vec![
            (0x0300, 1, "a".to_string()),
            (0x0300, 1, "b".to_string()),
            (0x0300, 2, "a".to_string()),
        ]
    );
}

#[test]
fn matches_identity_compares_all_three() {
    let device = info(0x0300, 0x1003, Some("A1"));
    assert!(matches_identity(&device, 0x0300, 0x1003, &"A1".to_string()));
    assert!(!matches_identity(&device, 0x0301, 0x1003, &"A1".to_string()));
    assert!(!matches_identity(&device, 0x0300, 0x1004, &"A1".to_string()));
    assert!(!matches_identity(&device, 0x0300, 0x1003, &"A2".to_string()));
    assert!(!matches_identity(&info(0x0300, 0x1003, None), 0x0300, 0x1003, &"".to_string()));
}

#[test]
fn extract_str_removes_nul_symbols() {
    assert_eq!(extract_str(b"AKP\x0003R\x00\x00").unwrap(), "AKP03R");
    assert_eq!(extract_str(b"\x00\x00").unwrap(), "");
    assert_eq!(extract_str(b"").unwrap(), "");
    assert_eq!(extract_str(b"plain").unwrap(), "plain");
}

#[test]
fn extract_str_decodes_utf8() {
    assert_eq!(extract_str("gr\u{fc}n\0 \u{20ac}".as_bytes()).unwrap(), "gr\u{fc}n \u{20ac}");
    assert_eq!(extract_str(&[0xf0, 0x9f, 0x98, 0x80, 0x00]).unwrap(), "\u{1f600}");
}

#[test]
fn extract_str_rejects_malformed_utf8() {
    assert!(extract_str(&[0x41, 0xff, 0x42]).is_err());
    assert!(extract_str(&[0xc3]).is_err());
    assert!(extract_str(&[0xed, 0xa0, 0x80]).is_err());
    assert!(extract_str(&[0xc0, 0x80]).is_err());
}

#[test]
fn image_format_default_is_no_image() {
    let format = ImageFormat::default();
    assert!(matches!(format.mode, ImageMode::NoImage));
    assert_eq!(format.size, (0, 0));
    assert!(matches!(format.rotation, ImageRotation::Rot0));
    assert!(matches!(format.mirror, ImageMirroring::NoMirroring));
}

#[test]
fn lifecycle_events_compare_by_device() {
    let a = DeviceLifecycleEvent::Connected(info(1, 2, Some("x")));
    let b = DeviceLifecycleEvent::Connected(info(1, 2, Some("x")));
    let c = DeviceLifecycleEvent::Disconnected(info(1, 2, Some("x")));
    assert_eq!(a, b);
    assert_ne!(a, c);
}

#[test]
fn outside_errors_convert_into_the_library_error() {
    let hid = MirajazzError::from(async_hid::HidError::NotConnected);
    assert!(matches!(hid, MirajazzError::HidError(async_hid::HidError::NotConnected)));
    let utf8 = std::str::from_utf8(&[0xff]).unwrap_err();
    assert!(matches!(MirajazzError::from(utf8), MirajazzError::Utf8Error(_)));
    let codec = image::ImageError::IoError(std::io::Error::new(std::io::ErrorKind::Other, "x"));
    assert!(matches!(MirajazzError::from(codec), MirajazzError::ImageError(_)));
    let poisoned = std::sync::PoisonError::new(5u8);
    assert!(matches!(MirajazzError::from(poisoned), MirajazzError::PoisonError));
}
