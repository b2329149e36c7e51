//! Single-frame codecs: typed device messages packed into one CAN frame
//! apiece, with the identifier driving dispatch directly.

pub mod grapple;
pub mod ni;

use vstd::prelude::*;

verus! {

/// Device type of broadcast messages.
pub const DEVICE_BROADCAST: u8 = 0;

/// Device type of the firmware update channel.
pub const DEVICE_FIRMWARE_UPDATE: u8 = 31;

/// Device type of the robot controller.
pub const DEVICE_ROBOT_CONTROLLER: u8 = 1;

/// Device type of the ultrasonic / distance sensor class.
pub const DEVICE_ULTRASONIC: u8 = 6;

/// Device type of the I/O breakout class.
pub const DEVICE_IO_BREAKOUT: u8 = 11;

/// The five identifier fields, as they stand in a 29-bit arbitration id.
#[derive(Debug, Clone, Copy, PartialEq, Eq, Structural)]
pub struct FrcCanId {
    pub device_type: u8,
    pub manufacturer: u8,
    pub api_class: u8,
    pub api_index: u8,
    pub device_id: u8,
}

impl FrcCanId {
    pub fn new(device_type: u8, manufacturer: u8, api_class: u8, api_index: u8, device_id: u8) -> (r:
        FrcCanId)
        ensures
            r == (FrcCanId { device_type, manufacturer, api_class, api_index, device_id }),
    {
        FrcCanId { device_type, manufacturer, api_class, api_index, device_id }
    }

    /// Every field fits its bit width.
    pub open spec fn wf(self) -> bool {
        self.device_type < 32 && self.api_class < 64 && self.api_index < 16 && self.device_id < 64
    }

    /// The packed 29-bit identifier; fields beyond their width are masked.
    pub open spec fn spec_to_u32(self) -> u32 {
        (((self.device_type % 32) as u32) * 0x1000000 + ((self.manufacturer as u32) * 0x10000)
            + (((self.api_class % 64) as u32) * 0x400) + (((self.api_index % 16) as u32) * 0x40)
            + ((self.device_id % 64) as u32)) as u32
    }

    pub open spec fn spec_from_u32(raw: u32) -> FrcCanId {
        FrcCanId {
            device_type: (((raw / 0x1000000) % 32) as u8),
            manufacturer: (((raw / 0x10000) % 256) as u8),
            api_class: (((raw / 0x400) % 64) as u8),
            api_index: (((raw / 0x40) % 16) as u8),
            device_id: ((raw % 64) as u8),
        }
    }

    pub fn to_u32(&self) -> (r: u32)
        ensures
            r == self.spec_to_u32(),
            r < 0x20000000,
    {
        proof {
            let dt = self.device_type;
            let m = self.manufacturer;
            let ac = self.api_class;
            let ai = self.api_index;
            let di = self.device_id;
            assert(((dt % 32) as u32) * 0x1000000 + (m as u32) * 0x10000 + ((ac % 64) as u32)
                * 0x400 + ((ai % 16) as u32) * 0x40 + ((di % 64) as u32) < 0x20000000)
                by (bit_vector);
        }
        ((self.device_type % 32) as u32) * 0x1000000 + (self.manufacturer as u32) * 0x10000 + ((
        self.api_class % 64) as u32) * 0x400 + ((self.api_index % 16) as u32) * 0x40 + ((
        self.device_id % 64) as u32)
    }

    pub fn from_u32(raw: u32) -> (r: FrcCanId)
        ensures
            r == FrcCanId::spec_from_u32(raw),
            r.wf(),
    {
        FrcCanId {
            device_type: ((raw / 0x1000000) % 32) as u8,
            manufacturer: ((raw / 0x10000) % 256) as u8,
            api_class: ((raw / 0x400) % 64) as u8,
            api_index: ((raw / 0x40) % 16) as u8,
            device_id: (raw % 64) as u8,
        }
    }
}

/// One raw CAN frame: identifier, an eight-byte buffer, and the number of
/// bytes that are meaningful.
#[derive(Debug, Clone, PartialEq, Eq)]
pub struct FrcCanData {
    pub id: FrcCanId,
    pub data: Vec<u8>,
    pub len: u8,
}

/// The mathematical model of [`FrcCanData`].
pub struct FrcCanDataV {
    pub id: FrcCanId,
    pub data: Seq<u8>,
    pub len: u8,
}

impl FrcCanDataV {
    /// The buffer is always eight bytes; `len` bounds the meaningful ones.
    pub open spec fn wf(self) -> bool {
        self.data.len() == 8 && self.len <= 8
    }
}

impl View for FrcCanData {
    type V = FrcCanDataV;

    open spec fn view(&self) -> FrcCanDataV {
        FrcCanDataV { id: self.id, data: self.data@, len: self.len }
    }
}

/// The view of a decode result.
pub open spec fn opt_view<T: View>(o: Option<T>) -> Option<T::V> {
    match o {
        Some(t) => Some(t@),
        None => None,
    }
}

/// A message that packs itself into one CAN frame.
pub trait FrcCanEncodable: View {
    /// Values whose fields fit the frame.
    spec fn enc_wf(&self) -> bool;

    /// The exact frame the value packs into.
    spec fn spec_encode(&self) -> FrcCanDataV;

    fn encode(&self) -> (r: FrcCanData)
        requires
            self.enc_wf(),
        ensures
            r@ == self.spec_encode(),
            r@.wf(),
    ;
}

/// A message that can be recognised in, and unpacked from, one CAN frame.
pub trait FrcCanDecodable: Sized + View {
    /// What decoding yields from a frame, if anything.
    spec fn spec_decode(d: FrcCanDataV) -> Option<Self::V>;

    fn decode(d: &FrcCanData) -> (r: Option<Self>)
        requires
            d@.wf(),
        ensures
            opt_view(r) == Self::spec_decode(d@),
    ;
}

/// Any message of the single-frame family.
#[derive(Debug, Clone, PartialEq, Eq)]
pub enum CanMessage {
    Ni(crate::frc::ni::Ni),
    Grapple(crate::frc::grapple::Grapple),
}

/// The mathematical model of [`CanMessage`].
pub enum CanMessageV {
    Ni(crate::frc::ni::Ni),
    Grapple(crate::frc::grapple::GrappleV),
}

impl View for CanMessage {
    type V = CanMessageV;

    open spec fn view(&self) -> CanMessageV {
        match self {
            CanMessage::Ni(m) => CanMessageV::Ni(*m),
            CanMessage::Grapple(m) => CanMessageV::Grapple(m@),
        }
    }
}

impl FrcCanDecodable for CanMessage {
    open spec fn spec_decode(d: FrcCanDataV) -> Option<CanMessageV> {
        match crate::frc::ni::Ni::spec_decode(d) {
            Some(m) => Some(CanMessageV::Ni(m)),
            None => match crate::frc::grapple::Grapple::spec_decode(d) {
                Some(m) => Some(CanMessageV::Grapple(m)),
                None => None,
            },
        }
    }

    fn decode(d: &FrcCanData) -> (r: Option<CanMessage>) {
        match crate::frc::ni::Ni::decode(d) {
            Some(m) => Some(CanMessage::Ni(m)),
            None => match crate::frc::grapple::Grapple::decode(d) {
                Some(m) => Some(CanMessage::Grapple(m)),
                None => None,
            },
        }
    }
}

/// Decoding any encoded vendor frame at the top level restores it: the
/// robotics-controller guard never claims a vendor frame.
pub proof fn lemma_can_message_round_trip(m: crate::frc::grapple::Grapple)
    requires
        m.enc_wf(),
    ensures
        CanMessage::spec_decode(m.spec_encode()) == Some(CanMessageV::Grapple(m@)),
{
    crate::frc::grapple::lemma_grapple_frame_round_trip(m);
    match m {
        crate::frc::grapple::Grapple::DeviceInfo(_) => {},
        crate::frc::grapple::Grapple::Firmware(_) => {},
        crate::frc::grapple::Grapple::LaserCan(_) => {},
        crate::frc::grapple::Grapple::SpiderCan(_) => {},
    }
}

} // verus!
