use mirajazz::device::Device;
use mirajazz::error::MirajazzError;
use mirajazz::frame::Command;
use mirajazz::page::image_pages;
use mirajazz::types::HidDeviceInfo;

fn info(vendor_id: u16, product_id: u16, serial: Option<&str>) -> HidDeviceInfo {
    HidDeviceInfo {
        vendor_id,
        product_id,
        usage_id: 2,
        usage_page: 65440,
        serial_number: serial.map(|s| s.to_string()),
    }
}

fn connect(is_v2: bool) -> Device {
    let devices = [info(0x0300, 0x1003, Some("A1"))];
    Device::connect(0x0300, 0x1003, "A1".to_string(), is_v2, false, 9, 3, &devices).unwrap()
}

fn handshake(packet_size: usize) -> Vec<Vec<u8>> {
    vec![
        Command::Handshake.encode(packet_size),
        Command::Dark.encode(packet_size),
    ]
}

fn image(key: u8, data: &[u8], packet_size: usize) -> Vec<Vec<u8>> {
    let mut reports = vec![Command::Announce { length: data.len(), key }.encode(packet_size)];
    reports.extend(image_pages(data, packet_size - 1));
    reports
}

#[test]
fn connect_finds_the_device() {
    let devices = [
        info(0x0300, 0x1003, None),
        info(0x0300, 0x1003, Some("B2")),
        info(0x0300, 0x1020, Some("A1")),
        info(0x0301, 0x1003, Some("A1")),
        info(0x0300, 0x1003, Some("A1")),
        info(0x0300, 0x1003, Some("A1")),
    ];
    let device =
        Device::connect(0x0300, 0x1003, "A1".to_string(), true, false, 9, 3, &devices).unwrap();
    assert_eq!(device.hid_device(), 4);
    assert_eq!(device.vid(), 0x0300);
    assert_eq!(device.pid(), 0x1003);
    assert_eq!(device.key_count(), 9);
    assert_eq!(device.encoder_count(), 3);
    assert_eq!(device.serial_number(), Some("A1".to_string()));
    assert!(!device.supports_both_states());
}

#[test]
fn connect_without_match_is_device_not_found() {
    let devices = [
        info(0x0300, 0x1003, None),
        info(0x0300, 0x1003, Some("B2")),
        info(0x0300, 0x1020, Some("A1")),
    ];
    let connected = Device::connect(0x0300, 0x1003, "A1".to_string(), true, false, 9, 3, &devices);
    assert!(matches!(connected, Err(MirajazzError::DeviceNotFoundError)));
    let connected = Device::connect(0x0300, 0x1003, "A1".to_string(), true, false, 9, 3, &[]);
    assert!(matches!(connected, Err(MirajazzError::DeviceNotFoundError)));
}

#[test]
fn packet_size_follows_the_protocol_variant() {
    assert_eq!(connect(false).packet_size(), 512);
    assert_eq!(connect(true).packet_size(), 1024);
}

#[test]
fn initialize_hands_out_the_handshake_once() {
    let mut device = connect(false);
    let first = device.initialize();
    assert_eq!(first, handshake(512));
    assert_eq!(first.len(), 2);
    assert_eq!(first[0].len(), 513);
    for _ in 0..5 {
        assert!(device.initialize().is_empty());
    }
}

#[test]
fn handshake_goes_out_once_over_all_commands() {
    let mut device = connect(true);
    let mut written: Vec<Vec<u8>> = Vec::new();
    written.extend(device.set_brightness(10));
    written.extend(device.initialize());
    written.extend(device.keep_alive());
    written.extend(device.sleep());
    written.extend(device.flush());
    let dis = Command::Handshake.encode(1024);
    let dark = Command::Dark.encode(1024);
    assert_eq!(written.iter().filter(|r| **r == dis).count(), 1);
    assert_eq!(written.iter().filter(|r| **r == dark).count(), 1);
    assert_eq!(written[0], dis);
    assert_eq!(written[1], dark);
    assert_eq!(written.len(), 5);
}

#[test]
fn set_brightness_follows_the_handshake() {
    let mut device = connect(false);
    let mut expected = handshake(512);
    expected.push(Command::Brightness(50).encode(512));
    assert_eq!(device.set_brightness(50), expected);
    assert_eq!(device.set_brightness(200), vec![Command::Brightness(100).encode(512)]);
    assert_eq!(device.set_brightness(200)[0][9], 100);
}

#[test]
fn clear_button_image_sends_one_clear() {
    let mut device = connect(false);
    device.initialize();
    let reports = device.clear_button_image(2);
    assert_eq!(reports, vec![Command::Clear(2).encode(512)]);
    assert_eq!(&reports[0][6..12], &[0x43, 0x4c, 0x45, 0x00, 0x00, 0x03]);
    assert_eq!(reports[0].len(), 513);
    assert!(reports[0][12..].iter().all(|byte| *byte == 0));
    assert_eq!(device.clear_button_image(0xff)[0][11], 0xff);
}

#[test]
fn clear_all_commits_only_on_the_second_variant() {
    let mut v1 = connect(false);
    v1.initialize();
    assert_eq!(v1.clear_all_button_images(), vec![Command::Clear(0xff).encode(512)]);
    let mut v2 = connect(true);
    v2.initialize();
    assert_eq!(
        v2.clear_all_button_images(),
        vec![Command::Clear(0xff).encode(1024), Command::Commit.encode(1024)]
    );
}

#[test]
fn reset_sets_full_brightness_and_clears() {
    let mut device = connect(true);
    let mut expected = handshake(1024);
    expected.push(Command::Brightness(100).encode(1024));
    expected.push(Command::Clear(0xff).encode(1024));
    expected.push(Command::Commit.encode(1024));
    assert_eq!(device.reset(), expected);
    let mut v1 = connect(false);
    v1.initialize();
    assert_eq!(
        v1.reset(),
        vec![Command::Brightness(100).encode(512), Command::Clear(0xff).encode(512)]
    );
}

#[test]
fn sleep_and_keep_alive_send_one_command() {
    let mut device = connect(false);
    device.initialize();
    assert_eq!(device.sleep(), vec![Command::Sleep.encode(512)]);
    assert_eq!(device.keep_alive(), vec![Command::KeepAlive.encode(512)]);
}

#[test]
fn shutdown_disconnects_then_sleeps() {
    let mut device = connect(false);
    let mut expected = handshake(512);
    expected.push(Command::Disconnect.encode(512));
    expected.push(Command::Sleep.encode(512));
    assert_eq!(device.shutdown(), expected);
}

#[test]
fn write_image_hands_out_nothing_and_does_not_initialize() {
    let mut device = connect(false);
    assert!(device.write_image(0, &[1, 2, 3]).is_ok());
    assert_eq!(device.initialize(), handshake(512));
}

#[test]
fn flush_of_an_empty_cache_is_the_handshake_alone() {
    let mut device = connect(false);
    assert_eq!(device.flush(), handshake(512));
    assert!(device.flush().is_empty());
}

#[test]
fn flush_sends_images_in_order_then_one_commit() {
    let a: Vec<u8> = (0..700).map(|i| (i % 200) as u8 + 1).collect();
    let b: Vec<u8> = vec![9, 8, 7];
    let mut device = connect(false);
    device.write_image(4, &a).unwrap();
    device.write_image(1, &b).unwrap();
    let reports = device.flush();
    let mut expected = handshake(512);
    expected.extend(image(4, &a, 512));
    expected.extend(image(1, &b, 512));
    expected.push(Command::Commit.encode(512));
    assert_eq!(reports, expected);
    // handshake (2), announcement + 2 pages, announcement + 1 page, commit
    assert_eq!(reports.len(), 2 + 3 + 2 + 1);
    assert_eq!(&reports[2][6..12], &[0x42, 0x41, 0x54, 0x02, 0xbc, 0x05]);
    assert_eq!(&reports[5][6..12], &[0x42, 0x41, 0x54, 0x00, 0x03, 0x02]);
    assert_eq!(&reports[6][..5], &[0, 9, 8, 7, 0]);
    // commands are one byte longer than the packet, pages as long as it
    let lengths: Vec<usize> = reports.iter().map(|r| r.len()).collect();
    assert_eq!(lengths, vec![513, 513, 513, 512, 512, 513, 512, 513]);
    assert_eq!(&reports[3][1..], &a[..511]);
    assert_eq!(&reports[4][1..190], &a[511..]);
    assert!(reports[4][190..].iter().all(|byte| *byte == 0));
    assert!(device.flush_done(Ok(())).is_ok());
    assert!(device.flush().is_empty());
}

#[test]
fn flush_does_not_deduplicate_keys() {
    let mut device = connect(true);
    device.initialize();
    device.write_image(3, &[1]).unwrap();
    device.write_image(3, &[2]).unwrap();
    let reports = device.flush();
    let mut expected = image(3, &[1], 1024);
    expected.extend(image(3, &[2], 1024));
    expected.push(Command::Commit.encode(1024));
    assert_eq!(reports, expected);
    assert_eq!(reports.len(), 5);
}

#[test]
fn failed_flush_keeps_the_cache() {
    let mut device = connect(false);
    device.initialize();
    device.write_image(0, &[5, 6]).unwrap();
    let first = device.flush();
    let failed = device.flush_done(Err(async_hid::HidError::Disconnected));
    assert!(matches!(
        failed,
        Err(MirajazzError::HidError(async_hid::HidError::Disconnected))
    ));
    assert_eq!(device.flush(), first);
    assert!(device.flush_done(Ok(())).is_ok());
    assert!(device.flush().is_empty());
}

#[test]
fn send_image_announces_then_pages() {
    let device = connect(true);
    let data: Vec<u8> = vec![7; 1024];
    let reports = device.send_image(2, &data);
    assert_eq!(reports, image(2, &data, 1024));
    assert_eq!(reports.len(), 3);
    assert_eq!(&reports[0][6..12], &[0x42, 0x41, 0x54, 0x04, 0x00, 0x03]);
    assert!(reports[0][12..].iter().all(|byte| *byte == 0));
    assert_eq!(reports[1].len(), 1024);
    assert_eq!(reports[1][0], 0);
    assert!(reports[1][1..].iter().all(|byte| *byte == 7));
    assert_eq!(reports[2].len(), 1024);
    assert_eq!(reports[2][..3], [0, 7, 0]);
}

#[test]
fn write_image_data_reports_pages_the_payload() {
    let device = connect(false);
    let data: Vec<u8> = (0..1000).map(|i| (i % 250) as u8).collect();
    assert_eq!(device.write_image_data_reports(&data), image_pages(&data, 511));
    assert!(device.write_image_data_reports(&data).iter().all(|page| page.len() == 512));
    assert_eq!(device.write_image_data_reports(&data).len(), 2);
    assert!(device.write_image_data_reports(&[]).is_empty());
}

#[test]
fn set_button_image_stages_the_encoded_image() {
    let mut device = connect(false);
    let (reports, staged) = device.set_button_image(1, Ok(vec![1, 2, 3]));
    assert_eq!(reports, handshake(512));
    assert!(staged.is_ok());
    let mut expected = image(1, &[1, 2, 3], 512);
    expected.push(Command::Commit.encode(512));
    assert_eq!(device.flush(), expected);
}

#[test]
fn set_button_image_passes_a_codec_failure_on() {
    let mut device = connect(false);
    let failure = image::ImageError::IoError(std::io::Error::new(
        std::io::ErrorKind::Other,
        "codec",
    ));
    let (reports, staged) = device.set_button_image(1, Err(failure));
    assert_eq!(reports, handshake(512));
    assert!(matches!(staged, Err(MirajazzError::ImageError(_))));
    assert!(device.flush().is_empty());
}

#[test]
fn begin_read_hands_out_the_handshake_and_the_report_length() {
    let mut device = connect(false);
    let (reports, length) = device.begin_read();
    assert_eq!(reports, handshake(512));
    assert_eq!(length, 512);
    let (reports, length) = device.begin_read();
    assert!(reports.is_empty());
    assert_eq!(length, 512);
    let mut v2 = connect(true);
    let (reports, length) = v2.begin_read();
    assert_eq!(reports, handshake(1024));
    assert_eq!(length, 512);
}

#[test]
fn read_data_with_timeout_is_none_when_the_timer_won() {
    let device = connect(false);
    assert_eq!(device.read_data_with_timeout(vec![0; 512], 0), None);
    let mut report = vec![0u8; 512];
    report[0] = 1;
    assert_eq!(device.read_data_with_timeout(report.clone(), 512), Some(report.clone()));
    assert_eq!(device.read_data_with_timeout(report.clone(), 1), Some(report));
}

#[test]
fn write_extended_data_pads_to_report_size() {
    let device = connect(false);
    let mut payload = vec![0x00, 0x43, 0x52, 0x54];
    device.write_extended_data(&mut payload);
    assert_eq!(payload.len(), 513);
    assert_eq!(&payload[..4], &[0x00, 0x43, 0x52, 0x54]);
    assert!(payload[4..].iter().all(|byte| *byte == 0));
    let device = connect(true);
    let mut payload = vec![1u8; 1025];
    device.write_extended_data(&mut payload);
    assert_eq!(payload, vec![1u8; 1025]);
}

#[test]
fn get_reader_starts_with_everything_released() {
    let mut dual = connect(false);
    dual.initialize();
    let reader = dual.get_reader(|_, _| Ok(mirajazz::types::DeviceInput::NoData));
    assert_eq!(reader.states.buttons, vec![false; 9]);
    assert_eq!(reader.states.encoders, vec![false; 3]);
    assert!(!reader.supports_both_states);
}
