use mirajazz::frame::{pad, Command};

fn expect_frame(command: Command, packet_size: usize, body: &[u8]) {
    let frame = command.encode(packet_size);
    assert_eq!(frame.len(), packet_size + 1);
    assert_eq!(&frame[..body.len()], body);
    assert!(frame[body.len()..].iter().all(|byte| *byte == 0));
}

#[test]
fn handshake_command_is_dis() {
    expect_frame(
        Command::Handshake,
        512,
        &[0x00, 0x43, 0x52, 0x54, 0x00, 0x00, 0x44, 0x49, 0x53],
    );
}

#[test]
fn dark_command_is_lig_without_value() {
    expect_frame(
        Command::Dark,
        512,
        &[0x00, 0x43, 0x52, 0x54, 0x00, 0x00, 0x4c, 0x49, 0x47, 0x00, 0x00, 0x00, 0x00, 0x00],
    );
    assert_eq!(Command::Dark.to_bytes().len(), 14);
    assert_eq!(Command::Dark.encode(512), Command::Brightness(0).encode(512));
}

#[test]
fn brightness_command_carries_percent() {
    expect_frame(
        Command::Brightness(50),
        512,
        &[0x00, 0x43, 0x52, 0x54, 0x00, 0x00, 0x4c, 0x49, 0x47, 50],
    );
    expect_frame(
        Command::Brightness(0),
        512,
        &[0x00, 0x43, 0x52, 0x54, 0x00, 0x00, 0x4c, 0x49, 0x47, 0],
    );
    expect_frame(
        Command::Brightness(100),
        1024,
        &[0x00, 0x43, 0x52, 0x54, 0x00, 0x00, 0x4c, 0x49, 0x47, 100],
    );
}

#[test]
fn brightness_above_hundred_is_clamped() {
    assert_eq!(Command::Brightness(101).to_bytes()[9], 100);
    assert_eq!(Command::Brightness(255).to_bytes()[9], 100);
    assert_eq!(Command::Brightness(99).to_bytes()[9], 99);
}

#[test]
fn announce_command_carries_length_and_one_based_key() {
    expect_frame(
        Command::Announce { length: 0x1234, key: 0 },
        512,
        &[0x00, 0x43, 0x52, 0x54, 0x00, 0x00, 0x42, 0x41, 0x54, 0x12, 0x34, 0x01],
    );
    expect_frame(
        Command::Announce { length: 5, key: 8 },
        1024,
        &[0x00, 0x43, 0x52, 0x54, 0x00, 0x00, 0x42, 0x41, 0x54, 0x00, 0x05, 0x09],
    );
    assert_eq!(Command::Announce { length: 0, key: 254 }.to_bytes()[11], 255);
}

#[test]
fn announce_length_keeps_its_low_sixteen_bits() {
    let bytes = Command::Announce { length: 0x1_0203, key: 1 }.to_bytes();
    assert_eq!(bytes[9], 0x02);
    assert_eq!(bytes[10], 0x03);
    let bytes = Command::Announce { length: 0xffff, key: 1 }.to_bytes();
    assert_eq!(bytes[9], 0xff);
    assert_eq!(bytes[10], 0xff);
}

#[test]
fn clear_command_names_key_one_based_or_all() {
    expect_frame(
        Command::Clear(3),
        512,
        &[0x00, 0x43, 0x52, 0x54, 0x00, 0x00, 0x43, 0x4c, 0x45, 0x00, 0x00, 0x04],
    );
    expect_frame(
        Command::Clear(0xff),
        512,
        &[0x00, 0x43, 0x52, 0x54, 0x00, 0x00, 0x43, 0x4c, 0x45, 0x00, 0x00, 0xff],
    );
    assert_eq!(Command::Clear(0).to_bytes()[11], 1);
    assert_eq!(Command::Clear(254).to_bytes()[11], 255);
}

#[test]
fn commit_command_is_stp() {
    expect_frame(
        Command::Commit,
        1024,
        &[0x00, 0x43, 0x52, 0x54, 0x00, 0x00, 0x53, 0x54, 0x50],
    );
}

#[test]
fn sleep_command_is_han() {
    expect_frame(
        Command::Sleep,
        512,
        &[0x00, 0x43, 0x52, 0x54, 0x00, 0x00, 0x48, 0x41, 0x4e],
    );
}

#[test]
fn keep_alive_command_is_connect() {
    expect_frame(
        Command::KeepAlive,
        512,
        &[0x00, 0x43, 0x52, 0x54, 0x00, 0x00, 0x43, 0x4f, 0x4e, 0x4e, 0x45, 0x43, 0x54],
    );
    assert_eq!(&Command::KeepAlive.to_bytes()[6..], "CONNECT".as_bytes());
}

#[test]
fn disconnect_command_ends_in_dc() {
    expect_frame(
        Command::Disconnect,
        512,
        &[0x00, 0x43, 0x52, 0x54, 0x00, 0x00, 0x43, 0x4c, 0x45, 0x00, 0x00, 0x44, 0x43],
    );
}

#[test]
fn every_command_starts_with_the_preamble() {
    let commands = [
        Command::Handshake,
        Command::Dark,
        Command::Brightness(7),
        Command::Announce { length: 9, key: 2 },
        Command::Clear(1),
        Command::Commit,
        Command::Sleep,
        Command::KeepAlive,
        Command::Disconnect,
    ];
    for command in commands {
        let bytes = command.to_bytes();
        assert_eq!(&bytes[..6], &[0x00, 0x43, 0x52, 0x54, 0x00, 0x00]);
        assert_eq!(&bytes[1..4], "CRT".as_bytes());
    }
}

#[test]
fn frames_are_one_byte_longer_than_the_packet() {
    assert_eq!(Command::Handshake.encode(512).len(), 513);
    assert_eq!(Command::Handshake.encode(1024).len(), 1025);
    assert_eq!(Command::Announce { length: 1, key: 1 }.encode(13).len(), 14);
}

#[test]
fn pad_appends_zero_bytes() {
    let mut payload = vec![1u8, 2, 3];
    pad(&mut payload, 7);
    assert_eq!(payload, vec![1u8, 2, 3, 0, 0, 0, 0, 0]);
}

#[test]
fn pad_leaves_a_full_report_alone() {
    let mut payload = vec![9u8; 8];
    pad(&mut payload, 7);
    assert_eq!(payload, vec![9u8; 8]);
    let mut empty: Vec<u8> = Vec::new();
    pad(&mut empty, 0);
    assert_eq!(empty, vec![0u8]);
}
