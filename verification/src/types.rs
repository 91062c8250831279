use vstd::prelude::*;

verus! {

/// What an enumeration of the HID bus shows of one device, as far as this
/// library reads it.
#[derive(Debug, Clone, PartialEq, Eq, Hash)]
pub struct HidDeviceInfo {
    /// The HID vendor id of the device's manufacturer
    pub vendor_id: u16,
    /// The HID product id assigned to the device
    pub product_id: u16,
    /// The HID usage id
    pub usage_id: u16,
    /// The HID usage page
    pub usage_page: u16,
    /// The serial number, where the device has one and the platform shows it
    pub serial_number: Option<String>,
}

/// The mathematical value of a [`HidDeviceInfo`].
pub struct HidDeviceInfoView {
    pub vendor_id: u16,
    pub product_id: u16,
    pub usage_id: u16,
    pub usage_page: u16,
    pub serial_number: Option<Seq<char>>,
}

impl View for HidDeviceInfo {
    type V = HidDeviceInfoView;

    open spec fn view(&self) -> HidDeviceInfoView {
        HidDeviceInfoView {
            vendor_id: self.vendor_id,
            product_id: self.product_id,
            usage_id: self.usage_id,
            usage_page: self.usage_page,
            serial_number: match self.serial_number {
                Some(s) => Some(s@),
                None => None,
            },
        }
    }
}

/// Connection / Disconnection event for watchers
#[derive(Eq, PartialEq, Hash, Debug)]
pub enum DeviceLifecycleEvent {
    Connected(HidDeviceInfo),
    Disconnected(HidDeviceInfo),
}

/// The mathematical value of a [`DeviceLifecycleEvent`].
pub enum DeviceLifecycleEventView {
    Connected(HidDeviceInfoView),
    Disconnected(HidDeviceInfoView),
}

impl View for DeviceLifecycleEvent {
    type V = DeviceLifecycleEventView;

    open spec fn view(&self) -> DeviceLifecycleEventView {
        match self {
            DeviceLifecycleEvent::Connected(info) => DeviceLifecycleEventView::Connected(info@),
            DeviceLifecycleEvent::Disconnected(info) => DeviceLifecycleEventView::Disconnected(info@),
        }
    }
}

/// Type of input that the device produced
#[derive(Clone, Debug, PartialEq, Eq)]
pub enum DeviceInput {
    /// No data was passed from the device
    NoData,
    /// Button was pressed
    ButtonStateChange(Vec<bool>),
    /// Encoder/Knob was pressed
    EncoderStateChange(Vec<bool>),
    /// Encoder/Knob was twisted/turned
    EncoderTwist(Vec<i8>),
}

impl DeviceInput {
    /// Checks if there's data received or not
    pub fn is_empty(&self) -> (empty: bool)
        ensures
            empty == (self is NoData),
    {
        matches!(self, DeviceInput::NoData)
    }
}

/// Image format used by the device
#[derive(Copy, Clone, Debug, Hash)]
pub struct ImageFormat {
    /// Image format/mode
    pub mode: ImageMode,
    /// Image size
    pub size: (usize, usize),
    /// Image rotation
    pub rotation: ImageRotation,
    /// Image mirroring
    pub mirror: ImageMirroring,
}

impl Default for ImageFormat {
    fn default() -> (format: Self)
        ensures
            format.mode is NoImage,
            format.size == (0usize, 0usize),
            format.rotation is Rot0,
            format.mirror is NoMirroring,
    {
        Self {
            mode: ImageMode::NoImage,
            size: (0, 0),
            rotation: ImageRotation::Rot0,
            mirror: ImageMirroring::NoMirroring,
        }
    }
}

/// Image rotation
#[derive(Copy, Clone, Debug, Hash)]
pub enum ImageRotation {
    /// No rotation
    Rot0,
    /// 90 degrees clockwise
    Rot90,
    /// 180 degrees
    Rot180,
    /// 90 degrees counter-clockwise
    Rot270,
}

/// Image mirroring
#[derive(Copy, Clone, Debug, Hash)]
pub enum ImageMirroring {
    /// No image mirroring
    NoMirroring,
    /// Flip by X
    X,
    /// Flip by Y
    Y,
    /// Flip by both axes
    Both,
}

/// Image format
#[derive(Copy, Clone, Debug, Hash)]
pub enum ImageMode {
    /// No image
    NoImage,
    /// Bitmap image
    BMP,
    /// Jpeg image
    JPEG,
}

} // verus!
