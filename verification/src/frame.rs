//! Command framing: the fixed byte layout of every command the device
//! understands, and the zero padding that brings a command to report size.

use vstd::prelude::*;

verus! {

/// The bytes of each report of a list, in the list's order.
pub open spec fn wire(reports: Seq<Vec<u8>>) -> Seq<Seq<u8>> {
    reports.map_values(|report: Vec<u8>| report@)
}

/// `n` zero bytes.
pub open spec fn zeros(n: nat) -> Seq<u8> {
    Seq::new(n, |i: int| 0u8)
}

/// What every command starts with: report id `0x00`, the ASCII magic `CRT`,
/// two zero bytes.
pub open spec fn preamble() -> Seq<u8> {
    seq![0x00u8, 0x43u8, 0x52u8, 0x54u8, 0x00u8, 0x00u8]
}

/// `body` followed by as many zero bytes as bring it to `packet_size + 1`
/// bytes. A body that is already longer is left as it is.
pub open spec fn padded(body: Seq<u8>, packet_size: nat) -> Seq<u8> {
    if body.len() <= packet_size + 1 {
        body + zeros((packet_size + 1 - body.len()) as nat)
    } else {
        body
    }
}

/// The brightness the device is sent for a requested `percent`: values above
/// 100 count as 100.
pub open spec fn clamp_percent(percent: u8) -> u8 {
    if percent > 100 {
        100u8
    } else {
        percent
    }
}

/// The byte that names a key in a clear command: `0xFF` stands for every key,
/// any other key is sent one-based.
pub open spec fn clear_target(key: u8) -> u8 {
    if key == 0xff {
        0xffu8
    } else {
        (key + 1) as u8
    }
}

/// The high byte of the 16-bit big-endian length field.
pub open spec fn length_high(length: nat) -> u8 {
    (length / 256 % 256) as u8
}

/// The low byte of the 16-bit big-endian length field.
pub open spec fn length_low(length: nat) -> u8 {
    (length % 256) as u8
}

/// One command of the wire protocol.
#[derive(Clone, Copy, Debug)]
pub enum Command {
    /// `DIS`: first half of the handshake.
    Handshake,
    /// `LIG` and five zero bytes: second half of the handshake.
    Dark,
    /// `LIG` and one byte: set the brightness, in percent.
    Brightness(u8),
    /// `BAT`, the length in two bytes, high byte first, and the one-based
    /// key: an image of `length` bytes for `key` follows.
    Announce { length: usize, key: u8 },
    /// `CLE`, two zero bytes and the target: blank one key, sent one-based,
    /// or every key for `0xFF`.
    Clear(u8),
    /// `STP`: commit what was sent.
    Commit,
    /// `HAN`: sleep; also the second half of a shutdown.
    Sleep,
    /// `CONNECT`: keep-alive heartbeat.
    KeepAlive,
    /// `CLE`, two zero bytes and `DC`: first half of a shutdown.
    Disconnect,
}

impl Command {
    /// The command before padding: preamble, opcode, parameters.
    pub open spec fn body(self) -> Seq<u8> {
        match self {
            Command::Handshake => preamble() + seq![0x44u8, 0x49u8, 0x53u8],
            Command::Dark => preamble() + seq![
                0x4cu8,
                0x49u8,
                0x47u8,
                0x00u8,
                0x00u8,
                0x00u8,
                0x00u8,
                0x00u8,
            ],
            Command::Brightness(percent) => preamble() + seq![0x4cu8, 0x49u8, 0x47u8, clamp_percent(percent)],
            Command::Announce { length, key } => preamble() + seq![
                0x42u8,
                0x41u8,
                0x54u8,
                length_high(length as nat),
                length_low(length as nat),
                (key + 1) as u8,
            ],
            Command::Clear(key) => preamble() + seq![
                0x43u8,
                0x4cu8,
                0x45u8,
                0x00u8,
                0x00u8,
                clear_target(key),
            ],
            Command::Commit => preamble() + seq![0x53u8, 0x54u8, 0x50u8],
            Command::Sleep => preamble() + seq![0x48u8, 0x41u8, 0x4eu8],
            Command::KeepAlive => preamble() + seq![
                0x43u8,
                0x4fu8,
                0x4eu8,
                0x4eu8,
                0x45u8,
                0x43u8,
                0x54u8,
            ],
            Command::Disconnect => preamble() + seq![
                0x43u8,
                0x4cu8,
                0x45u8,
                0x00u8,
                0x00u8,
                0x44u8,
                0x43u8,
            ],
        }
    }

    /// The command as it goes on the wire for a device with the given packet
    /// size: the body, zero-padded to `packet_size + 1` bytes.
    pub open spec fn frame(self, packet_size: nat) -> Seq<u8> {
        padded(self.body(), packet_size)
    }

    /// Whether the command has a wire form: the one-based key of an
    /// announcement must fit in a byte.
    pub open spec fn encodable(self) -> bool {
        match self {
            Command::Announce { key, .. } => key < 255,
            _ => true,
        }
    }

    /// The unpadded bytes of the command.
    pub fn to_bytes(&self) -> (bytes: Vec<u8>)
        requires
            self.encodable(),
        ensures
            bytes@ == self.body(),
    {
        let bytes = match *self {
            Command::Handshake => vec![0x00u8, 0x43u8, 0x52u8, 0x54u8, 0x00u8, 0x00u8, 0x44u8, 0x49u8, 0x53u8],
            Command::Dark => vec![
                0x00u8,
                0x43u8,
                0x52u8,
                0x54u8,
                0x00u8,
                0x00u8,
                0x4cu8,
                0x49u8,
                0x47u8,
                0x00u8,
                0x00u8,
                0x00u8,
                0x00u8,
                0x00u8,
            ],
            Command::Brightness(percent) => {
                let percent: u8 = if percent > 100 {
                    100
                } else {
                    percent
                };
                vec![0x00u8, 0x43u8, 0x52u8, 0x54u8, 0x00u8, 0x00u8, 0x4cu8, 0x49u8, 0x47u8, percent]
            },
            Command::Announce { length, key } => vec![
                0x00u8,
                0x43u8,
                0x52u8,
                0x54u8,
                0x00u8,
                0x00u8,
                0x42u8,
                0x41u8,
                0x54u8,
                (length / 256 % 256) as u8,
                (length % 256) as u8,
                key + 1,
            ],
            Command::Clear(key) => {
                let target: u8 = if key == 0xff {
                    0xff
                } else {
                    key + 1
                };
                vec![
                    0x00u8,
                    0x43u8,
                    0x52u8,
                    0x54u8,
                    0x00u8,
                    0x00u8,
                    0x43u8,
                    0x4cu8,
                    0x45u8,
                    0x00u8,
                    0x00u8,
                    target,
                ]
            },
            Command::Commit => vec![0x00u8, 0x43u8, 0x52u8, 0x54u8, 0x00u8, 0x00u8, 0x53u8, 0x54u8, 0x50u8],
            Command::Sleep => vec![0x00u8, 0x43u8, 0x52u8, 0x54u8, 0x00u8, 0x00u8, 0x48u8, 0x41u8, 0x4eu8],
            Command::KeepAlive => vec![
                0x00u8,
                0x43u8,
                0x52u8,
                0x54u8,
                0x00u8,
                0x00u8,
                0x43u8,
                0x4fu8,
                0x4eu8,
                0x4eu8,
                0x45u8,
                0x43u8,
                0x54u8,
            ],
            Command::Disconnect => vec![
                0x00u8,
                0x43u8,
                0x52u8,
                0x54u8,
                0x00u8,
                0x00u8,
                0x43u8,
                0x4cu8,
                0x45u8,
                0x00u8,
                0x00u8,
                0x44u8,
                0x43u8,
            ],
        };
        assert(bytes@ =~= self.body());
        bytes
    }

    /// The command as a report for a device with the given packet size.
    pub fn encode(&self, packet_size: usize) -> (frame: Vec<u8>)
        requires
            self.encodable(),
            self.body().len() <= packet_size + 1,
            packet_size < usize::MAX,
        ensures
            frame@ == self.frame(packet_size as nat),
            frame@.len() == packet_size + 1,
    {
        let mut frame = self.to_bytes();
        pad(&mut frame, packet_size);
        frame
    }
}

/// Appends zero bytes to `payload` until it is `packet_size + 1` bytes long.
pub fn pad(payload: &mut Vec<u8>, packet_size: usize)
    requires
        old(payload)@.len() <= packet_size + 1,
        packet_size < usize::MAX,
    ensures
        final(payload)@ == padded(old(payload)@, packet_size as nat),
        final(payload)@.len() == packet_size + 1,
{
    let ghost body = payload@;
    while payload.len() < packet_size + 1
        invariant
            packet_size < usize::MAX,
            body.len() <= payload@.len() <= packet_size + 1,
            payload@ == body + zeros((payload@.len() - body.len()) as nat),
        decreases packet_size + 1 - payload@.len(),
    {
        payload.push(0u8);
        assert(payload@ =~= body + zeros((payload@.len() - body.len()) as nat));
    }
}

/// The bytes of a list with one more report are the bytes of the list with
/// the bytes of that report at the end.
pub proof fn lemma_wire_push(reports: Seq<Vec<u8>>, report: Vec<u8>)
    ensures
        wire(reports.push(report)) == wire(reports).push(report@),
{
    assert(wire(reports.push(report)) =~= wire(reports).push(report@));
}

/// The bytes of two lists, one after the other, are the bytes of the one
/// followed by the bytes of the other.
pub proof fn lemma_wire_add(first: Seq<Vec<u8>>, second: Seq<Vec<u8>>)
    ensures
        wire(first + second) == wire(first) + wire(second),
{
    assert(wire(first + second) =~= wire(first) + wire(second));
}

/// Every command body fits a report of any packet size from 13 bytes up.
pub proof fn lemma_body_len(command: Command)
    ensures
        9 <= command.body().len() <= 14,
{
}

} // verus!
