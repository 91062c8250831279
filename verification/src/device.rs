//! The connection to one device: its capabilities, its lazy handshake, its
//! commands and its cache of images that wait for a flush.
//!
//! Nothing here touches the device. A command returns the reports that the
//! caller is to write, one at a time and in the order given.

use vstd::prelude::*;
use vstd::slice::slice_to_vec;
use vstd::utf8::{decode_utf8, valid_utf8};
use crate::error::MirajazzError;
use crate::frame::{lemma_body_len, lemma_wire_add, lemma_wire_push, pad, padded, wire, zeros, Command};
use crate::page::{contents, image_pages, law_paging_round_trip, page_content, page_count, pages};
use crate::state::{classify_report, report_bytes, report_request, DeviceStateReader};
use crate::types::{DeviceInput, HidDeviceInfo};

verus! {

/// The packet size of a device of the first protocol variant.
pub const PACKET_SIZE_V1: usize = 512;

/// The packet size of a device of the second protocol variant.
pub const PACKET_SIZE_V2: usize = 1024;

/// The length of an input report.
pub const INPUT_REPORT_LENGTH: usize = 512;

/// Whether an enumerated device has the given vendor id, product id and
/// serial number.
pub open spec fn is_device(info: HidDeviceInfo, vid: u16, pid: u16, serial: Seq<char>) -> bool {
    info.vendor_id == vid && info.product_id == pid && info@.serial_number == Some(serial)
}

/// Whether an enumerated device has the given vendor id, product id and
/// serial number.
pub fn matches_identity(info: &HidDeviceInfo, vid: u16, pid: u16, serial: &String) -> (found: bool)
    ensures
        found == is_device(*info, vid, pid, serial@),
{
    if info.vendor_id != vid || info.product_id != pid {
        return false;
    }
    match &info.serial_number {
        Some(s) => *s == *serial,
        None => false,
    }
}

/// The identity under which an enumerated device is listed: its vendor id,
/// product id and serial number, if its vendor is among `vids` and it has a
/// serial number.
pub open spec fn listing(info: HidDeviceInfo, vids: Seq<u16>) -> Option<(u16, u16, Seq<char>)> {
    match info@.serial_number {
        Some(serial) => if vids.contains(info.vendor_id) {
            Some((info.vendor_id, info.product_id, serial))
        } else {
            None
        },
        None => None,
    }
}

/// The identities of the listed devices among `devices`, each once, in the
/// order in which they first appear.
pub open spec fn listed(devices: Seq<HidDeviceInfo>, vids: Seq<u16>) -> Seq<(u16, u16, Seq<char>)>
    decreases devices.len(),
{
    if devices.len() == 0 {
        Seq::empty()
    } else {
        let before = listed(devices.drop_last(), vids);
        match listing(devices.last(), vids) {
            Some(identity) => if before.contains(identity) {
                before
            } else {
                before.push(identity)
            },
            None => before,
        }
    }
}

/// The identities that a list of devices holds.
pub open spec fn identities(found: Seq<(u16, u16, String)>) -> Seq<(u16, u16, Seq<char>)> {
    found.map_values(|device: (u16, u16, String)| (device.0, device.1, device.2@))
}

/// The list of devices is a set: no identity stands in it twice, and an
/// identity stands in it exactly when one of the enumerated devices is listed
/// under it.
pub proof fn law_listed_is_a_set(devices: Seq<HidDeviceInfo>, vids: Seq<u16>)
    ensures
        listed(devices, vids).no_duplicates(),
        forall|identity: (u16, u16, Seq<char>)|
            listed(devices, vids).contains(identity) <==> exists|i: int|
                0 <= i < devices.len() && listing(#[trigger] devices[i], vids) == Some(identity),
    decreases devices.len(),
{
    let all = listed(devices, vids);
    if devices.len() == 0 {
    } else {
        let front = devices.drop_last();
        let before = listed(front, vids);
        law_listed_is_a_set(front, vids);
        assert forall|identity: (u16, u16, Seq<char>)| all.contains(identity) implies exists|i: int|
            0 <= i < devices.len() && listing(#[trigger] devices[i], vids) == Some(identity) by {
            if before.contains(identity) {
                let i = choose|i: int| 0 <= i < front.len() && listing(#[trigger] front[i], vids) == Some(identity);
                assert(devices[i] == front[i]);
            } else {
                let j = choose|j: int| 0 <= j < all.len() && all[j] == identity;
                assert(listing(devices.last(), vids) == Some(identity));
                assert(devices[devices.len() - 1] == devices.last());
            }
        }
        assert forall|identity: (u16, u16, Seq<char>)|
            (exists|i: int| 0 <= i < devices.len() && listing(#[trigger] devices[i], vids) == Some(identity))
            implies all.contains(identity) by {
            let i = choose|i: int| 0 <= i < devices.len() && listing(#[trigger] devices[i], vids) == Some(identity);
            if i < front.len() {
                assert(front[i] == devices[i]);
                assert(before.contains(identity));
                let j = choose|j: int| 0 <= j < before.len() && before[j] == identity;
                assert(all[j] == identity);
            } else {
                if !before.contains(identity) {
                    assert(all == before.push(identity));
                    assert(all[before.len() as int] == identity);
                } else {
                    let j = choose|j: int| 0 <= j < before.len() && before[j] == identity;
                    assert(all[j] == identity);
                }
            }
        }
    }
}

/// Whether `vid` is among `vids`.
fn contains_vid(vids: &[u16], vid: u16) -> (found: bool)
    ensures
        found == vids@.contains(vid),
{
    let mut index: usize = 0;
    while index < vids.len()
        invariant
            index <= vids@.len(),
            forall|i: int| 0 <= i < index ==> vids@[i] != vid,
        decreases vids@.len() - index,
    {
        if vids[index] == vid {
            return true;
        }
        index += 1;
    }
    false
}

/// Whether the identity stands in the list already.
fn already_listed(found: &Vec<(u16, u16, String)>, vid: u16, pid: u16, serial: &String) -> (listed: bool)
    ensures
        listed == identities(found@).contains((vid, pid, serial@)),
{
    let mut index: usize = 0;
    while index < found.len()
        invariant
            index <= found@.len(),
            forall|i: int| 0 <= i < index ==> identities(found@)[i] != (vid, pid, serial@),
        decreases found@.len() - index,
    {
        let entry = &found[index];
        if entry.0 == vid && entry.1 == pid && entry.2 == *serial {
            assert(identities(found@)[index as int] == (vid, pid, serial@));
            return true;
        }
        index += 1;
    }
    false
}

/// Returns the devices among the enumerated `devices` whose vendor id is one
/// of `vids` and which have a serial number, as (vendor id, product id,
/// serial number). Each identity is returned once.
pub fn list_devices(vids: &[u16], devices: &[HidDeviceInfo]) -> (found: Vec<(u16, u16, String)>)
    ensures
        identities(found@) == listed(devices@, vids@),
{
    let mut found: Vec<(u16, u16, String)> = Vec::new();
    let mut index: usize = 0;
    assert(devices@.take(0) =~= Seq::empty());
    assert(identities(found@) =~= listed(devices@.take(0), vids@));
    while index < devices.len()
        invariant
            index <= devices@.len(),
            identities(found@) == listed(devices@.take(index as int), vids@),
        decreases devices@.len() - index,
    {
        let info = &devices[index];
        proof {
            let next = devices@.take(index + 1);
            assert(next.drop_last() =~= devices@.take(index as int));
            assert(next.last() == devices@[index as int]);
        }
        if contains_vid(vids, info.vendor_id) {
            if let Some(serial) = &info.serial_number {
                if !already_listed(&found, info.vendor_id, info.product_id, serial) {
                    let ghost before = found@;
                    found.push((info.vendor_id, info.product_id, serial.clone()));
                    assert(identities(found@) =~= identities(before).push(
                        (info.vendor_id, info.product_id, serial@),
                    ));
                }
            }
        }
        index += 1;
    }
    assert(devices@.take(index as int) =~= devices@);
    found
}

/// The text with every occurrence of `from` replaced by `to`.
pub open spec fn replaced(text: Seq<char>, from: char, to: Seq<char>) -> Seq<char>
    decreases text.len(),
{
    if text.len() == 0 {
        Seq::empty()
    } else {
        replaced(text.drop_last(), from, to) + if text.last() == from {
            to
        } else {
            seq![text.last()]
        }
    }
}

/// `std::str::from_utf8`: succeeds exactly on well-formed UTF-8, and the
/// string it returns holds the characters that the bytes encode.
#[verifier::external_body]
fn str_from_utf8(bytes: &[u8]) -> (text: Result<&str, std::str::Utf8Error>)
    ensures
        text is Ok <==> valid_utf8(bytes@),
        text matches Ok(s) ==> s@ == decode_utf8(bytes@),
{
    std::str::from_utf8(bytes)
}

/// `str::replace` with a character as the pattern: returns the text with
/// every occurrence of `from` replaced by `to`.
#[verifier::external_body]
fn str_replace(text: &str, from: char, to: &str) -> (result: String)
    ensures
        result@ == replaced(text@, from, to@),
{
    text.replace(from, to)
}

/// Replacing a character by nothing leaves the characters that differ from
/// it, in their order.
proof fn lemma_replaced_by_nothing(text: Seq<char>, from: char)
    ensures
        replaced(text, from, Seq::empty()) == text.filter(|c: char| c != from),
    decreases text.len(),
{
    reveal(Seq::filter);
    if text.len() > 0 {
        lemma_replaced_by_nothing(text.drop_last(), from);
        assert(replaced(text, from, Seq::empty()) =~= text.filter(|c: char| c != from));
    }
}

/// Extracts string from byte array, removing \0 symbols
///
/// Succeeds exactly when the bytes are well-formed UTF-8. The string holds
/// the characters that the bytes encode, without the NUL characters.
pub fn extract_str(bytes: &[u8]) -> (text: Result<String, std::str::Utf8Error>)
    ensures
        text is Ok <==> valid_utf8(bytes@),
        text matches Ok(s) ==> s@ == decode_utf8(bytes@).filter(|c: char| c != '\0'),
{
    match str_from_utf8(bytes) {
        Ok(decoded) => {
            proof {
                reveal_strlit("");
                lemma_replaced_by_nothing(decoded@, '\0');
                assert(""@ =~= Seq::<char>::empty());
            }
            Ok(str_replace(decoded, '\0', ""))
        },
        Err(e) => Err(e),
    }
}

/// An image as it waits in the cache.
struct ImageCache {
    key: u8,
    image_data: Vec<u8>,
}

/// Interface for a device
pub struct Device {
    /// Vendor ID of the device
    vid: u16,
    /// Product ID of the device
    pid: u16,
    /// Serial number
    serial_number: String,
    /// Use v2 hacks
    is_v2: bool,
    /// Emits two events for buttons or not
    supports_both_states: bool,
    /// Number of keys
    key_count: usize,
    /// Number of encoders
    encoder_count: usize,
    /// Packet size
    packet_size: usize,
    /// Where the connected device stood in the enumeration
    hid_device: usize,
    /// The serial number that the enumeration showed of the connected device
    hid_serial_number: Option<String>,
    /// Temporarily cache the image before sending it to the device
    image_cache: Vec<ImageCache>,
    /// Device needs to be initialized
    initialized: bool,
}

/// The mathematical value of a [`Device`].
pub struct DeviceView {
    pub vid: u16,
    pub pid: u16,
    pub serial_number: Seq<char>,
    pub is_v2: bool,
    pub supports_both_states: bool,
    pub key_count: nat,
    pub encoder_count: nat,
    pub packet_size: nat,
    pub hid_device: nat,
    pub hid_serial_number: Option<Seq<char>>,
    /// Whether the handshake has been handed out
    pub initialized: bool,
    /// The images that wait for a flush, oldest first: key and payload
    pub staged: Seq<(u8, Seq<u8>)>,
}

impl DeviceView {
    /// The reports of the handshake, as long as it has not been handed out:
    /// the reset command, then the zero-brightness command.
    pub open spec fn handshake(self) -> Seq<Seq<u8>> {
        if self.initialized {
            Seq::empty()
        } else {
            seq![Command::Handshake.frame(self.packet_size), Command::Dark.frame(self.packet_size)]
        }
    }

    /// The connection once the handshake has been handed out.
    pub open spec fn started(self) -> DeviceView {
        DeviceView { initialized: true, ..self }
    }

    /// The connection with one more image at the end of the cache.
    pub open spec fn staging(self, key: u8, payload: Seq<u8>) -> DeviceView {
        DeviceView { staged: self.staged.push((key, payload)), ..self }
    }

    /// The connection with an empty cache.
    pub open spec fn flushed(self) -> DeviceView {
        DeviceView { staged: Seq::empty(), ..self }
    }

    /// The content bytes that one page carries.
    pub open spec fn page_payload(self) -> nat {
        (self.packet_size - 1) as nat
    }

    /// The pages of one image: each is `packet_size` bytes long, the header
    /// byte and `packet_size - 1` bytes of the image.
    pub open spec fn image_pages(self, payload: Seq<u8>) -> Seq<Seq<u8>> {
        pages(payload, self.page_payload())
    }

    /// The reports of one image: its announcement, then its pages.
    pub open spec fn image_reports(self, key: u8, payload: Seq<u8>) -> Seq<Seq<u8>> {
        seq![Command::Announce { length: payload.len() as usize, key }.frame(self.packet_size)]
            + self.image_pages(payload)
    }

    /// The reports of the first `n` cached images, image after image.
    pub open spec fn staged_reports(self, n: int) -> Seq<Seq<u8>> {
        self.staged.take(n).map_values(|image: (u8, Seq<u8>)| self.image_reports(image.0, image.1)).flatten()
    }

    /// The reports that blank every key: the clear command for all keys and,
    /// on the second protocol variant, the commit that it needs.
    pub open spec fn clear_all_reports(self) -> Seq<Seq<u8>> {
        if self.is_v2 {
            seq![Command::Clear(0xff).frame(self.packet_size), Command::Commit.frame(self.packet_size)]
        } else {
            seq![Command::Clear(0xff).frame(self.packet_size)]
        }
    }

    /// The reports of a flush: the handshake if it is still due; then, unless
    /// the cache is empty, every cached image in the order of its arrival and
    /// one commit.
    pub open spec fn flush_reports(self) -> Seq<Seq<u8>> {
        if self.staged.len() == 0 {
            self.handshake()
        } else {
            self.handshake() + self.staged_reports(self.staged.len() as int) + seq![
                Command::Commit.frame(self.packet_size),
            ]
        }
    }
}

impl View for Device {
    type V = DeviceView;

    closed spec fn view(&self) -> DeviceView {
        DeviceView {
            vid: self.vid,
            pid: self.pid,
            serial_number: self.serial_number@,
            is_v2: self.is_v2,
            supports_both_states: self.supports_both_states,
            key_count: self.key_count as nat,
            encoder_count: self.encoder_count as nat,
            packet_size: self.packet_size as nat,
            hid_device: self.hid_device as nat,
            hid_serial_number: match self.hid_serial_number {
                Some(s) => Some(s@),
                None => None,
            },
            initialized: self.initialized,
            staged: self.image_cache@.map_values(|image: ImageCache| (image.key, image.image_data@)),
        }
    }
}

/// Static functions of the struct
impl Device {
    /// A device is well formed when its packet size is that of its protocol
    /// variant and every cached key has a one-based form that fits a byte.
    #[verifier::type_invariant]
    spec fn well_formed(self) -> bool {
        &&& self.packet_size == if self.is_v2 {
            PACKET_SIZE_V2
        } else {
            PACKET_SIZE_V1
        }
        &&& forall|i: int| 0 <= i < self.image_cache@.len() ==> (#[trigger] self.image_cache@[i]).key < 255
    }

    /// Connects to the first of the enumerated `devices` that has the given
    /// vendor id, product id and serial number.
    ///
    /// Fails with `DeviceNotFoundError` exactly when none has. The new
    /// connection has not handed out its handshake and has an empty cache;
    /// its packet size is 1024 for the second protocol variant and 512 for
    /// the first.
    pub fn connect(
        vid: u16,
        pid: u16,
        serial: String,
        is_v2: bool,
        supports_both_states: bool,
        key_count: usize,
        encoder_count: usize,
        devices: &[HidDeviceInfo],
    ) -> (connected: Result<Device, MirajazzError>)
        ensures
            connected is Err <==> forall|i: int|
                0 <= i < devices@.len() ==> !is_device(#[trigger] devices@[i], vid, pid, serial@),
            connected matches Err(e) ==> e is DeviceNotFoundError,
            connected matches Ok(device) ==> {
                &&& device@.hid_device < devices@.len()
                &&& is_device(devices@[device@.hid_device as int], vid, pid, serial@)
                &&& forall|i: int|
                    0 <= i < device@.hid_device ==> !is_device(#[trigger] devices@[i], vid, pid, serial@)
                &&& device@ == DeviceView {
                    vid,
                    pid,
                    serial_number: serial@,
                    is_v2,
                    supports_both_states,
                    key_count: key_count as nat,
                    encoder_count: encoder_count as nat,
                    packet_size: if is_v2 {
                        1024nat
                    } else {
                        512nat
                    },
                    hid_device: device@.hid_device,
                    hid_serial_number: Some(serial@),
                    initialized: false,
                    staged: Seq::empty(),
                }
            },
    {
        let mut index: usize = 0;
        while index < devices.len()
            invariant
                index <= devices@.len(),
                forall|i: int| 0 <= i < index ==> !is_device(#[trigger] devices@[i], vid, pid, serial@),
            decreases devices@.len() - index,
        {
            if matches_identity(&devices[index], vid, pid, &serial) {
                let hid_serial_number = Some(serial.clone());
                let device = Device {
                    vid,
                    pid,
                    serial_number: serial,
                    is_v2,
                    supports_both_states,
                    key_count,
                    encoder_count,
                    packet_size: if is_v2 {
                        PACKET_SIZE_V2
                    } else {
                        PACKET_SIZE_V1
                    },
                    hid_device: index,
                    hid_serial_number,
                    image_cache: Vec::new(),
                    initialized: false,
                };
                assert(device@.staged =~= Seq::empty());
                return Ok(device);
            }
            index += 1;
        }
        Err(MirajazzError::DeviceNotFoundError)
    }
}

/// Instance methods of the struct
impl Device {
    /// Returns the vendor id
    pub fn vid(&self) -> (vid: u16)
        ensures
            vid == self@.vid,
    {
        self.vid
    }

    /// Returns the product id
    pub fn pid(&self) -> (pid: u16)
        ensures
            pid == self@.pid,
    {
        self.pid
    }

    /// Returns key count
    pub fn key_count(&self) -> (count: usize)
        ensures
            count == self@.key_count,
    {
        self.key_count
    }

    /// Returns encoder count
    pub fn encoder_count(&self) -> (count: usize)
        ensures
            count == self@.encoder_count,
    {
        self.encoder_count
    }

    /// Returns the packet size: 1024 for the second protocol variant, 512
    /// for the first.
    pub fn packet_size(&self) -> (size: usize)
        ensures
            size == self@.packet_size,
            size == if self@.is_v2 {
                1024usize
            } else {
                512usize
            },
    {
        proof {
            use_type_invariant(self);
        }
        self.packet_size
    }

    /// Returns the place of the connected device in the enumeration that
    /// [`Device::connect`] was given.
    pub fn hid_device(&self) -> (index: usize)
        ensures
            index == self@.hid_device,
    {
        self.hid_device
    }

    /// Returns serial number of the device
    pub fn serial_number(&self) -> (serial: Option<String>)
        ensures
            match serial {
                Some(s) => self@.hid_serial_number == Some(s@),
                None => self@.hid_serial_number is None,
            },
    {
        match &self.hid_serial_number {
            Some(s) => Some(s.clone()),
            None => None,
        }
    }

    /// Returns value of `supports_both_states`
    pub fn supports_both_states(&self) -> (dual: bool)
        ensures
            dual == self@.supports_both_states,
    {
        self.supports_both_states
    }

    /// Initializes the device: the first call hands out the two reports of
    /// the handshake, every later call hands out nothing.
    pub fn initialize(&mut self) -> (reports: Vec<Vec<u8>>)
        ensures
            final(self)@ == old(self)@.started(),
            wire(reports@) == old(self)@.handshake(),
    {
        proof {
            use_type_invariant(&*self);
        }
        let mut reports: Vec<Vec<u8>> = Vec::new();
        if self.initialized {
            assert(wire(reports@) =~= old(self)@.handshake());
            return reports;
        }
        self.initialized = true;
        reports.push(Command::Handshake.encode(self.packet_size));
        reports.push(Command::Dark.encode(self.packet_size));
        assert(wire(reports@) =~= old(self)@.handshake());
        reports
    }

    /// Begins a read of input: hands out the handshake where it is due, to
    /// be written before the read starts, and the length of the one report
    /// that is then to be read, which is 512 bytes. Nothing else is written
    /// for a read.
    pub fn begin_read(&mut self) -> (request: (Vec<Vec<u8>>, usize))
        ensures
            wire(request.0@) == old(self)@.handshake(),
            request.1 == INPUT_REPORT_LENGTH,
            request.1 == 512,
            final(self)@ == old(self)@.started(),
    {
        let reports = self.initialize();
        (reports, INPUT_REPORT_LENGTH)
    }

    /// Classifies one raw input report, or the lack of one: no report and a
    /// heartbeat are `NoData`; any other report goes to `process_input` as
    /// its index and state bytes, and what that returns is the result.
    pub fn read_input<F: Fn(u8, u8) -> Result<DeviceInput, MirajazzError>>(
        &self,
        data: Option<Vec<u8>>,
        process_input: F,
    ) -> (input: Result<DeviceInput, MirajazzError>)
        requires
            data matches Some(report) ==> report@.len() >= 11,
            forall|index: u8, state: u8| call_requires(process_input, (index, state)),
        ensures
            match report_request(self@.supports_both_states, report_bytes(data)) {
                None => input == Ok::<DeviceInput, MirajazzError>(DeviceInput::NoData),
                Some(request) => call_ensures(process_input, request, input),
            },
    {
        classify_report(self.supports_both_states, data, &process_input)
    }

    /// Resets the device: full brightness, every key blank.
    pub fn reset(&mut self) -> (reports: Vec<Vec<u8>>)
        ensures
            final(self)@ == old(self)@.started(),
            wire(reports@) == old(self)@.handshake() + seq![
                Command::Brightness(100).frame(old(self)@.packet_size),
            ] + old(self)@.clear_all_reports(),
    {
        let mut reports = self.initialize();
        let mut brightness = self.set_brightness(100);
        proof {
            lemma_wire_add(reports@, brightness@);
        }
        reports.append(&mut brightness);
        let mut clear = self.clear_all_button_images();
        proof {
            lemma_wire_add(reports@, clear@);
        }
        reports.append(&mut clear);
        assert(wire(reports@) =~= old(self)@.handshake() + seq![
            Command::Brightness(100).frame(old(self)@.packet_size),
        ] + old(self)@.clear_all_reports());
        reports
    }

    /// Sets brightness of the device, value range is 0 - 100
    pub fn set_brightness(&mut self, percent: u8) -> (reports: Vec<Vec<u8>>)
        ensures
            final(self)@ == old(self)@.started(),
            wire(reports@) == old(self)@.handshake() + seq![
                Command::Brightness(percent).frame(old(self)@.packet_size),
            ],
    {
        self.command(Command::Brightness(percent))
    }

    /// The reports of one command, after the handshake where that is due.
    fn command(&mut self, command: Command) -> (reports: Vec<Vec<u8>>)
        requires
            command.encodable(),
        ensures
            final(self)@ == old(self)@.started(),
            wire(reports@) == old(self)@.handshake() + seq![command.frame(old(self)@.packet_size)],
    {
        proof {
            use_type_invariant(&*self);
            lemma_body_len(command);
        }
        let mut reports = self.initialize();
        reports.push(command.encode(self.packet_size));
        assert(wire(reports@) =~= old(self)@.handshake() + seq![command.frame(old(self)@.packet_size)]);
        reports
    }

    /// The reports that carry one image to a key: the announcement of its
    /// length and key, then its pages.
    pub fn send_image(&self, key: u8, image_data: &[u8]) -> (reports: Vec<Vec<u8>>)
        requires
            key < 255,
        ensures
            wire(reports@) == self@.image_reports(key, image_data@),
    {
        proof {
            use_type_invariant(self);
            lemma_body_len(Command::Announce { length: image_data@.len() as usize, key });
        }
        let mut reports: Vec<Vec<u8>> = Vec::new();
        reports.push(Command::Announce { length: image_data.len(), key }.encode(self.packet_size));
        let mut image_pages = self.write_image_data_reports(image_data);
        reports.append(&mut image_pages);
        assert(wire(reports@) =~= self@.image_reports(key, image_data@));
        reports
    }

    /// Writes image data to device, changes must be flushed with `.flush()` before
    /// they will appear on the device!
    ///
    /// The image joins the end of the cache; nothing is handed out. The key
    /// is sent one-based, so key 255 has no place.
    pub fn write_image(&mut self, key: u8, image_data: &[u8]) -> (staged: Result<(), MirajazzError>)
        requires
            key < 255,
        ensures
            staged is Ok,
            final(self)@ == old(self)@.staging(key, image_data@),
    {
        proof {
            use_type_invariant(&*self);
        }
        let cache_entry = ImageCache { key, image_data: slice_to_vec(image_data) };
        // The cache is taken out while it grows: the device is well formed
        // at every step.
        let mut cache: Vec<ImageCache> = Vec::new();
        core::mem::swap(&mut self.image_cache, &mut cache);
        cache.push(cache_entry);
        self.image_cache = cache;
        assert(self@.staged =~= old(self)@.staged.push((key, image_data@)));
        Ok(())
    }

    /// Sets button's image to blank, changes must be flushed with `.flush()` before
    /// they will appear on the device!
    pub fn clear_button_image(&mut self, key: u8) -> (reports: Vec<Vec<u8>>)
        ensures
            final(self)@ == old(self)@.started(),
            wire(reports@) == old(self)@.handshake() + seq![Command::Clear(key).frame(old(self)@.packet_size)],
    {
        self.command(Command::Clear(key))
    }

    /// Sets blank images to every button, changes must be flushed with `.flush()` before
    /// they will appear on the device!
    pub fn clear_all_button_images(&mut self) -> (reports: Vec<Vec<u8>>)
        ensures
            final(self)@ == old(self)@.started(),
            wire(reports@) == old(self)@.handshake() + old(self)@.clear_all_reports(),
    {
        let mut reports = self.clear_button_image(0xFF);
        if self.is_v2 {
            // The second protocol variant requires a commit to clear the screen
            proof {
                use_type_invariant(&*self);
            }
            let commit = Command::Commit.encode(self.packet_size);
            proof {
                lemma_wire_push(reports@, commit);
            }
            reports.push(commit);
        }
        assert(wire(reports@) =~= old(self)@.handshake() + old(self)@.clear_all_reports());
        reports
    }

    /// Sets specified button's image, changes must be flushed with `.flush()` before
    /// they will appear on the device!
    ///
    /// `encoded` is what the image codec made of the image for the device's
    /// format. The handshake is handed out where it is due, whatever the
    /// codec returned. An encoded image joins the cache; a codec failure is
    /// passed on and the cache stays as it was.
    pub fn set_button_image(&mut self, key: u8, encoded: Result<Vec<u8>, image::ImageError>) -> (outcome: (
        Vec<Vec<u8>>,
        Result<(), MirajazzError>,
    ))
        requires
            key < 255,
        ensures
            wire(outcome.0@) == old(self)@.handshake(),
            match encoded {
                Ok(image_data) => outcome.1 is Ok && final(self)@ == old(self)@.started().staging(
                    key,
                    image_data@,
                ),
                Err(e) => outcome.1 == Err::<(), MirajazzError>(MirajazzError::ImageError(e)) && final(self)@
                    == old(self)@.started(),
            },
    {
        let reports = self.initialize();
        match encoded {
            Ok(image_data) => {
                let staged = self.write_image(key, image_data.as_slice());
                (reports, staged)
            },
            Err(e) => (reports, Err(MirajazzError::from(e))),
        }
    }

    /// Sleeps the device
    pub fn sleep(&mut self) -> (reports: Vec<Vec<u8>>)
        ensures
            final(self)@ == old(self)@.started(),
            wire(reports@) == old(self)@.handshake() + seq![Command::Sleep.frame(old(self)@.packet_size)],
    {
        self.command(Command::Sleep)
    }

    /// Make periodic events to the device, to keep it alive
    pub fn keep_alive(&mut self) -> (reports: Vec<Vec<u8>>)
        ensures
            final(self)@ == old(self)@.started(),
            wire(reports@) == old(self)@.handshake() + seq![Command::KeepAlive.frame(old(self)@.packet_size)],
    {
        self.command(Command::KeepAlive)
    }

    /// Shutdown the device
    pub fn shutdown(&mut self) -> (reports: Vec<Vec<u8>>)
        ensures
            final(self)@ == old(self)@.started(),
            wire(reports@) == old(self)@.handshake() + seq![
                Command::Disconnect.frame(old(self)@.packet_size),
                Command::Sleep.frame(old(self)@.packet_size),
            ],
    {
        proof {
            use_type_invariant(&*self);
        }
        let mut reports = self.command(Command::Disconnect);
        let sleep = Command::Sleep.encode(self.packet_size);
        proof {
            lemma_wire_push(reports@, sleep);
        }
        reports.push(sleep);
        assert(wire(reports@) =~= old(self)@.handshake() + seq![
            Command::Disconnect.frame(old(self)@.packet_size),
            Command::Sleep.frame(old(self)@.packet_size),
        ]);
        reports
    }

    /// Flushes the button's image to the device
    ///
    /// Hands out the handshake where it is due and then, unless the cache is
    /// empty, every cached image in the order of its arrival, followed by
    /// one commit. The cache keeps its images until [`Device::flush_done`]
    /// hears that the reports were written.
    pub fn flush(&mut self) -> (reports: Vec<Vec<u8>>)
        ensures
            final(self)@ == old(self)@.started(),
            wire(reports@) == old(self)@.flush_reports(),
    {
        let mut reports = self.initialize();
        if self.image_cache.is_empty() {
            return reports;
        }
        proof {
            use_type_invariant(&*self);
        }
        let ghost before = old(self)@;
        let ghost per_image = |image: (u8, Seq<u8>)| before.image_reports(image.0, image.1);
        assert(before.staged.take(0).map_values(per_image) =~= Seq::<Seq<Seq<u8>>>::empty());
        let mut index: usize = 0;
        while index < self.image_cache.len()
            invariant
                index <= self.image_cache@.len(),
                self@ == before.started(),
                per_image == |image: (u8, Seq<u8>)| before.image_reports(image.0, image.1),
                forall|i: int| 0 <= i < self.image_cache@.len() ==> (#[trigger] self.image_cache@[i]).key < 255,
                wire(reports@) == before.handshake() + before.staged_reports(index as int),
            decreases self.image_cache@.len() - index,
        {
            let image = &self.image_cache[index];
            let mut more = self.send_image(image.key, image.image_data.as_slice());
            proof {
                let done = before.staged.take(index as int).map_values(per_image);
                let next = before.staged[index as int];
                assert(before.staged.take(index + 1).map_values(per_image) =~= done.push(per_image(next)));
                done.lemma_flatten_push(per_image(next));
                lemma_wire_add(reports@, more@);
            }
            reports.append(&mut more);
            index += 1;
            assert(wire(reports@) =~= before.handshake() + before.staged_reports(index as int));
        }
        let commit = Command::Commit.encode(self.packet_size);
        proof {
            lemma_wire_push(reports@, commit);
        }
        reports.push(commit);
        reports
    }

    /// Ends a flush with what became of its reports: once all were written
    /// the cache is emptied; after a failed write the cache keeps every image,
    /// so that the next flush sends them all again, and the failure is passed
    /// on.
    pub fn flush_done(&mut self, written: Result<(), async_hid::HidError>) -> (flushed: Result<
        (),
        MirajazzError,
    >)
        ensures
            match written {
                Ok(_) => flushed is Ok && final(self)@ == old(self)@.flushed(),
                Err(e) => flushed == Err::<(), MirajazzError>(MirajazzError::HidError(e)) && final(self)@
                    == old(self)@,
            },
    {
        proof {
            use_type_invariant(&*self);
        }
        match written {
            Ok(_) => {
                self.image_cache = Vec::new();
                assert(self@.staged =~= Seq::empty());
                Ok(())
            },
            Err(e) => Err(MirajazzError::from(e)),
        }
    }

    /// Returns button state reader for this device
    ///
    /// The reader starts with every button and every encoder released.
    pub fn get_reader<F: Fn(u8, u8) -> Result<DeviceInput, MirajazzError>>(&self, process_input: F) -> (reader:
        DeviceStateReader<F>)
        ensures
            reader.supports_both_states == self@.supports_both_states,
            reader.process_input == process_input,
            reader.states@.buttons == Seq::new(self@.key_count, |i: int| false),
            reader.states@.encoders == Seq::new(self@.encoder_count, |i: int| false),
    {
        DeviceStateReader::new(self.supports_both_states, self.key_count, self.encoder_count, process_input)
    }

    /// The pages of an image, in the order in which they are to be written:
    /// each is the header byte `0x00` followed by `packet_size - 1` bytes
    /// of the image, and only the last is filled up with zero bytes.
    pub fn write_image_data_reports(&self, image_data: &[u8]) -> (reports: Vec<Vec<u8>>)
        ensures
            wire(reports@) == self@.image_pages(image_data@),
    {
        proof {
            use_type_invariant(self);
        }
        let image_report_length: usize = self.packet_size;
        let image_report_header_length: usize = 1;
        let image_report_payload_length: usize = image_report_length - image_report_header_length;
        image_pages(image_data, image_report_payload_length)
    }

    /// What a read with a timeout gives: nothing where the timer won, which
    /// shows as a size of zero, else the report that was read.
    pub fn read_data_with_timeout(&self, report: Vec<u8>, size: usize) -> (data: Option<Vec<u8>>)
        ensures
            size == 0 ==> data is None,
            size != 0 ==> data == Some(report),
    {
        if size == 0 {
            return None;
        }
        Some(report)
    }

    /// Extends `payload` with zero bytes to the size of a report.
    pub fn write_extended_data(&self, payload: &mut Vec<u8>)
        requires
            old(payload)@.len() <= self@.packet_size + 1,
        ensures
            final(payload)@ == padded(old(payload)@, self@.packet_size),
            final(payload)@.len() == self@.packet_size + 1,
    {
        proof {
            use_type_invariant(self);
        }
        pad(payload, self.packet_size);
    }
}

/// The reports of `n` initializations in a row.
pub open spec fn repeated_initialize(device: DeviceView, n: nat) -> Seq<Seq<u8>>
    decreases n,
{
    if n == 0 {
        Seq::empty()
    } else {
        device.handshake() + repeated_initialize(device.started(), (n - 1) as nat)
    }
}

/// The handshake goes out once. However often a connection is initialized,
/// all its initializations together hand out the two reports of the
/// handshake, reset first, and nothing else; a connection that has handed
/// them out hands out nothing more.
pub proof fn law_initialize_once(device: DeviceView, n: nat)
    ensures
        device.initialized ==> repeated_initialize(device, n) == Seq::<Seq<u8>>::empty(),
        !device.initialized && n > 0 ==> repeated_initialize(device, n) == seq![
            Command::Handshake.frame(device.packet_size),
            Command::Dark.frame(device.packet_size),
        ],
        repeated_initialize(device, n).len() <= 2,
    decreases n,
{
    if n > 0 {
        law_initialize_once(device.started(), (n - 1) as nat);
        assert(repeated_initialize(device, n) =~= device.handshake());
    }
}

/// A cached image is flushed after all that were cached before it: the
/// reports of the cache with one more image are the reports of the cache as
/// it was, followed by the reports of that image.
pub proof fn law_flush_keeps_order(device: DeviceView, key: u8, payload: Seq<u8>)
    ensures
        device.staging(key, payload).staged_reports(device.staged.len() as int + 1) == device.staged_reports(
            device.staged.len() as int,
        ) + device.image_reports(key, payload),
{
    let after = device.staging(key, payload);
    let n = device.staged.len() as int;
    let old_reports = |image: (u8, Seq<u8>)| device.image_reports(image.0, image.1);
    let new_reports = |image: (u8, Seq<u8>)| after.image_reports(image.0, image.1);
    let done = device.staged.take(n).map_values(old_reports);
    assert(after.staged.take(n + 1).map_values(new_reports) =~= done.push(device.image_reports(key, payload)));
    done.lemma_flatten_push(device.image_reports(key, payload));
}

/// Two images are written and then flushed. The flush hands out, in this
/// order: the handshake if it is still due, what the cache held before, the
/// announcement of the first image with its length and key, the pages of the
/// first image, the announcement and the pages of the second image, and one
/// commit. Once the flush is done the cache is empty.
pub proof fn law_flush_order(device: DeviceView, k1: u8, a: Seq<u8>, k2: u8, b: Seq<u8>)
    ensures
        device.staging(k1, a).staging(k2, b).flush_reports() == device.handshake() + device.staged_reports(
            device.staged.len() as int,
        ) + seq![Command::Announce { length: a.len() as usize, key: k1 }.frame(device.packet_size)]
            + device.image_pages(a) + seq![
            Command::Announce { length: b.len() as usize, key: k2 }.frame(device.packet_size),
        ] + device.image_pages(b) + seq![Command::Commit.frame(device.packet_size)],
        device.staged.len() == 0 ==> device.staged_reports(device.staged.len() as int) == Seq::<
            Seq<u8>,
        >::empty(),
        device.staging(k1, a).staging(k2, b).started().flushed().staged == Seq::<(u8, Seq<u8>)>::empty(),
{
    let first = device.staging(k1, a);
    let second = first.staging(k2, b);
    law_flush_keeps_order(device, k1, a);
    law_flush_keeps_order(first, k2, b);
    assert(first.image_reports(k2, b) == device.image_reports(k2, b));
    assert(second.flush_reports() =~= device.handshake() + device.staged_reports(device.staged.len() as int)
        + seq![Command::Announce { length: a.len() as usize, key: k1 }.frame(device.packet_size)]
        + device.image_pages(a) + seq![
        Command::Announce { length: b.len() as usize, key: k2 }.frame(device.packet_size),
    ] + device.image_pages(b) + seq![Command::Commit.frame(device.packet_size)]);
    if device.staged.len() == 0 {
        let per_image = |image: (u8, Seq<u8>)| device.image_reports(image.0, image.1);
        assert(device.staged.take(0).map_values(per_image) =~= Seq::<Seq<Seq<u8>>>::empty());
    }
}

/// The pages of an image are header and content, and nothing is lost. On a
/// device of either packet size, every page is `packet_size` bytes long: the
/// header byte `0x00` and `packet_size - 1` content bytes. Every page but the
/// last is the header byte and the next `packet_size - 1` bytes of the image;
/// only the last page is filled up, with zero bytes. All bytes behind the
/// headers, in the order of the pages, are the image followed by zero bytes
/// only.
pub proof fn law_image_pages(device: DeviceView, payload: Seq<u8>)
    requires
        device.packet_size == 512 || device.packet_size == 1024,
    ensures
        device.page_payload() == device.packet_size - 1,
        device.image_pages(payload).len() == page_count(payload.len(), device.page_payload()),
        forall|k: int|
            0 <= k < device.image_pages(payload).len() ==> {
                &&& (#[trigger] device.image_pages(payload)[k]).len() == device.packet_size
                &&& device.image_pages(payload)[k][0] == 0
                &&& device.image_pages(payload)[k] == seq![0x00u8] + page_content(
                    payload,
                    device.page_payload(),
                    k,
                ) + zeros((device.page_payload() - page_content(payload, device.page_payload(), k).len()) as nat)
                &&& k < device.image_pages(payload).len() - 1 ==> device.image_pages(payload)[k] == seq![0x00u8]
                    + payload.subrange(k * device.page_payload(), (k + 1) * device.page_payload())
            },
        contents(device.image_pages(payload)) == payload + zeros(
            (page_count(payload.len(), device.page_payload()) * device.page_payload() - payload.len()) as nat,
        ),
        contents(device.image_pages(payload)).take(payload.len() as int) == payload,
{
    law_paging_round_trip(payload, device.page_payload());
}

} // verus!
