//! Vendor device frames of the single-frame family: device info, firmware
//! transfer, distance sensor and I/O breakout, each packed into one CAN
//! frame.

use vstd::prelude::*;

verus! {

use crate::bits::{le16_at, le32_at, u16_le_bytes, u32_le_bytes, lemma_u16_le_recompose,
    lemma_u32_le_recompose};
use crate::frc::{
    FrcCanData, FrcCanDataV, FrcCanDecodable, FrcCanEncodable, FrcCanId, DEVICE_BROADCAST,
    DEVICE_FIRMWARE_UPDATE, DEVICE_ULTRASONIC, DEVICE_IO_BREAKOUT,
};
use vstd::arithmetic::div_mod::lemma_fundamental_div_mod_converse;

/// Manufacturer code of the vendor.
pub const GRAPPLE_MANUFACTURER: u8 = 0x06;

/// API class of device-info frames.
pub const DEVICE_INFO_CLASS: u8 = 0x00;

/// API class of firmware transfer frames.
pub const FIRMWARE_UPDATE_CLASS: u8 = 0x01;

/// Device id that addresses every device.
pub const DEVICE_ID_BROADCAST: u8 = 0x3F;

/// The little-endian `u32` at the head of a frame body.
pub fn read_u32(data: &[u8]) -> (r: u32)
    requires
        data@.len() >= 4,
    ensures
        r == le32_at(data@, 0),
{
    (data[3] as u32) * 0x1000000 + (data[2] as u32) * 0x10000 + (data[1] as u32) * 256 + (
    data[0] as u32)
}

/// The little-endian `u16` at the head of a frame body.
pub fn read_u16(data: &[u8]) -> (r: u16)
    requires
        data@.len() >= 2,
    ensures
        r == le16_at(data@, 0),
{
    (data[1] as u16) * 256 + (data[0] as u16)
}

/// Product line of a responding device.
#[derive(Debug, Clone, Copy, PartialEq, Eq, Structural)]
pub enum GrappleModelId {
    LaserCan,
    SpiderCan,
}

impl GrappleModelId {
    pub open spec fn spec_tag(self) -> u8 {
        match self {
            GrappleModelId::LaserCan => 0,
            GrappleModelId::SpiderCan => 1,
        }
    }

    pub open spec fn spec_from_tag(t: u8) -> Option<GrappleModelId> {
        if t == 0 {
            Some(GrappleModelId::LaserCan)
        } else if t == 1 {
            Some(GrappleModelId::SpiderCan)
        } else {
            None
        }
    }

    pub fn tag(&self) -> (t: u8)
        ensures
            t == self.spec_tag(),
    {
        match self {
            GrappleModelId::LaserCan => 0,
            GrappleModelId::SpiderCan => 1,
        }
    }

    pub fn from_tag(t: u8) -> (r: Option<GrappleModelId>)
        ensures
            r == GrappleModelId::spec_from_tag(t),
    {
        if t == 0 {
            Some(GrappleModelId::LaserCan)
        } else if t == 1 {
            Some(GrappleModelId::SpiderCan)
        } else {
            None
        }
    }
}

/// Broadcast device-info operations.
#[derive(Debug, Clone, Copy, PartialEq, Eq)]
pub enum GrappleDeviceInfo {
    EnumerateRequest,
    EnumerateResponse {
        device_id: u8,
        model_id: GrappleModelId,
        firmware_version: (u8, u8, u8),
        serial: u32,
    },
    SetId { device_id: u8, serial: u32 },
    Blink { serial: u32 },
}

impl View for GrappleDeviceInfo {
    type V = GrappleDeviceInfo;

    open spec fn view(&self) -> GrappleDeviceInfo {
        *self
    }
}

impl FrcCanEncodable for GrappleDeviceInfo {
    /// An enumerate response never carries the broadcast address.
    open spec fn enc_wf(&self) -> bool {
        match self {
            GrappleDeviceInfo::EnumerateResponse { device_id, .. } => *device_id
                != DEVICE_ID_BROADCAST,
            _ => true,
        }
    }

    open spec fn spec_encode(&self) -> FrcCanDataV {
        match self {
            GrappleDeviceInfo::EnumerateRequest => FrcCanDataV {
                id: FrcCanId {
                    device_type: DEVICE_BROADCAST,
                    manufacturer: GRAPPLE_MANUFACTURER,
                    api_class: DEVICE_INFO_CLASS,
                    api_index: 0x00,
                    device_id: DEVICE_ID_BROADCAST,
                },
                data: seq![0u8, 0u8, 0u8, 0u8, 0u8, 0u8, 0u8, 0u8],
                len: 0,
            },
            GrappleDeviceInfo::EnumerateResponse {
                device_id,
                model_id,
                firmware_version,
                serial,
            } => FrcCanDataV {
                id: FrcCanId {
                    device_type: DEVICE_BROADCAST,
                    manufacturer: GRAPPLE_MANUFACTURER,
                    api_class: DEVICE_INFO_CLASS,
                    api_index: 0x00,
                    device_id: *device_id,
                },
                data: seq![
                    model_id.spec_tag(),
                    firmware_version.0,
                    firmware_version.1,
                    firmware_version.2,
                ] + u32_le_bytes(*serial),
                len: 8,
            },
            GrappleDeviceInfo::SetId { device_id, serial } => FrcCanDataV {
                id: FrcCanId {
                    device_type: DEVICE_BROADCAST,
                    manufacturer: GRAPPLE_MANUFACTURER,
                    api_class: DEVICE_INFO_CLASS,
                    api_index: 0x01,
                    device_id: *device_id,
                },
                data: u32_le_bytes(*serial) + seq![0u8, 0u8, 0u8, 0u8],
                len: 4,
            },
            GrappleDeviceInfo::Blink { serial } => FrcCanDataV {
                id: FrcCanId {
                    device_type: DEVICE_BROADCAST,
                    manufacturer: GRAPPLE_MANUFACTURER,
                    api_class: DEVICE_INFO_CLASS,
                    api_index: 0x02,
                    device_id: DEVICE_ID_BROADCAST,
                },
                data: u32_le_bytes(*serial) + seq![0u8, 0u8, 0u8, 0u8],
                len: 4,
            },
        }
    }

    fn encode(&self) -> (r: FrcCanData) {
        match self {
            GrappleDeviceInfo::EnumerateRequest => {
                let mut d: Vec<u8> = Vec::new();
                let mut i: usize = 0;
                while i < 8
                    invariant
                        i <= 8,
                        d@ == Seq::new(i as nat, |j: int| 0u8),
                    decreases 8 - i,
                {
                    d.push(0);
                    proof {
                        assert(d@ =~= Seq::new(i as nat + 1, |j: int| 0u8));
                    }
                    i = i + 1;
                }
                let r = FrcCanData {
                    id: FrcCanId::new(
                        DEVICE_BROADCAST,
                        GRAPPLE_MANUFACTURER,
                        DEVICE_INFO_CLASS,
                        0x00,
                        DEVICE_ID_BROADCAST,
                    ),
                    data: d,
                    len: 0,
                };
                proof {
                    assert(r@.data =~= self.spec_encode().data);
                }
                r
            },
            GrappleDeviceInfo::EnumerateResponse {
                device_id,
                model_id,
                firmware_version,
                serial,
            } => {
                let mut d: Vec<u8> = Vec::new();
                d.push(model_id.tag());
                d.push(firmware_version.0);
                d.push(firmware_version.1);
                d.push(firmware_version.2);
                push_u32_le(&mut d, *serial);
                let r = FrcCanData {
                    id: FrcCanId::new(
                        DEVICE_BROADCAST,
                        GRAPPLE_MANUFACTURER,
                        DEVICE_INFO_CLASS,
                        0x00,
                        *device_id,
                    ),
                    data: d,
                    len: 8,
                };
                proof {
                    assert(r@.data =~= self.spec_encode().data);
                }
                r
            },
            GrappleDeviceInfo::SetId { device_id, serial } => {
                let mut d: Vec<u8> = Vec::new();
                push_u32_le(&mut d, *serial);
                d.push(0);
                d.push(0);
                d.push(0);
                d.push(0);
                let r = FrcCanData {
                    id: FrcCanId::new(
                        DEVICE_BROADCAST,
                        GRAPPLE_MANUFACTURER,
                        DEVICE_INFO_CLASS,
                        0x01,
                        *device_id,
                    ),
                    data: d,
                    len: 4,
                };
                proof {
                    assert(r@.data =~= self.spec_encode().data);
                }
                r
            },
            GrappleDeviceInfo::Blink { serial } => {
                let mut d: Vec<u8> = Vec::new();
                push_u32_le(&mut d, *serial);
                d.push(0);
                d.push(0);
                d.push(0);
                d.push(0);
                let r = FrcCanData {
                    id: FrcCanId::new(
                        DEVICE_BROADCAST,
                        GRAPPLE_MANUFACTURER,
                        DEVICE_INFO_CLASS,
                        0x02,
                        DEVICE_ID_BROADCAST,
                    ),
                    data: d,
                    len: 4,
                };
                proof {
                    assert(r@.data =~= self.spec_encode().data);
                }
                r
            },
        }
    }
}

/// Append the little-endian bytes of `v`.
fn push_u32_le(d: &mut Vec<u8>, v: u32)
    ensures
        final(d)@ == old(d)@ + u32_le_bytes(v),
{
    d.push((v % 256) as u8);
    d.push(((v / 256) % 256) as u8);
    d.push(((v / 0x10000) % 256) as u8);
    d.push((v / 0x1000000) as u8);
    proof {
        assert(d@ =~= old(d)@ + u32_le_bytes(v));
    }
}

/// Append the little-endian bytes of `v`.
fn push_u16_le(d: &mut Vec<u8>, v: u16)
    ensures
        final(d)@ == old(d)@ + u16_le_bytes(v),
{
    d.push((v % 256) as u8);
    d.push((v / 256) as u8);
    proof {
        assert(d@ =~= old(d)@ + u16_le_bytes(v));
    }
}

impl FrcCanDecodable for GrappleDeviceInfo {
    open spec fn spec_decode(d: FrcCanDataV) -> Option<GrappleDeviceInfo> {
        if d.id.manufacturer != GRAPPLE_MANUFACTURER || d.id.device_type != DEVICE_BROADCAST
            || d.id.api_class != DEVICE_INFO_CLASS {
            None
        } else if d.id.api_index == 0x00 && d.id.device_id == DEVICE_ID_BROADCAST {
            Some(GrappleDeviceInfo::EnumerateRequest)
        } else if d.id.api_index == 0x00 && d.len == 8 {
            match GrappleModelId::spec_from_tag(d.data[0]) {
                Some(model_id) => Some(
                    GrappleDeviceInfo::EnumerateResponse {
                        device_id: d.id.device_id,
                        model_id,
                        firmware_version: (d.data[1], d.data[2], d.data[3]),
                        serial: le32_at(d.data, 4),
                    },
                ),
                None => None,
            }
        } else if d.id.api_index == 0x01 && d.len == 4 {
            Some(GrappleDeviceInfo::SetId { device_id: d.id.device_id, serial: le32_at(d.data, 0) })
        } else if d.id.api_index == 0x02 && d.id.device_id == DEVICE_ID_BROADCAST && d.len == 4 {
            Some(GrappleDeviceInfo::Blink { serial: le32_at(d.data, 0) })
        } else {
            None
        }
    }

    fn decode(d: &FrcCanData) -> (r: Option<GrappleDeviceInfo>) {
        if d.id.manufacturer != GRAPPLE_MANUFACTURER || d.id.device_type != DEVICE_BROADCAST
            || d.id.api_class != DEVICE_INFO_CLASS {
            None
        } else if d.id.api_index == 0x00 && d.id.device_id == DEVICE_ID_BROADCAST {
            Some(GrappleDeviceInfo::EnumerateRequest)
        } else if d.id.api_index == 0x00 && d.len == 8 {
            match GrappleModelId::from_tag(d.data[0]) {
                Some(model_id) => Some(
                    GrappleDeviceInfo::EnumerateResponse {
                        device_id: d.id.device_id,
                        model_id,
                        firmware_version: (d.data[1], d.data[2], d.data[3]),
                        serial: read_u32(&d.data.as_slice()[4..8]),
                    },
                ),
                None => None,
            }
        } else if d.id.api_index == 0x01 && d.len == 4 {
            Some(
                GrappleDeviceInfo::SetId {
                    device_id: d.id.device_id,
                    serial: read_u32(d.data.as_slice()),
                },
            )
        } else if d.id.api_index == 0x02 && d.id.device_id == DEVICE_ID_BROADCAST && d.len == 4 {
            Some(GrappleDeviceInfo::Blink { serial: read_u32(d.data.as_slice()) })
        } else {
            None
        }
    }
}

/// Firmware transfer operations.
#[derive(Debug, Clone, Copy, PartialEq, Eq)]
pub enum GrappleFirmware {
    UpdateRequest { serial: u32 },
    UpdateReady { serial: u32, model_id: GrappleModelId },
    UpdatePart { serial: u32, data: (u8, u8, u8, u8), len: u8 },
    UpdatePartAck { serial: u32 },
    UpdateDone { serial: u32 },
}

impl View for GrappleFirmware {
    type V = GrappleFirmware;

    open spec fn view(&self) -> GrappleFirmware {
        *self
    }
}

impl GrappleFirmware {
    pub open spec fn firmware_id(api_index: u8) -> FrcCanId {
        FrcCanId {
            device_type: DEVICE_FIRMWARE_UPDATE,
            manufacturer: GRAPPLE_MANUFACTURER,
            api_class: FIRMWARE_UPDATE_CLASS,
            api_index,
            device_id: DEVICE_ID_BROADCAST,
        }
    }
}

impl FrcCanEncodable for GrappleFirmware {
    /// A part update carries at most four chunk bytes.
    open spec fn enc_wf(&self) -> bool {
        match self {
            GrappleFirmware::UpdatePart { len, .. } => *len <= 4,
            _ => true,
        }
    }

    open spec fn spec_encode(&self) -> FrcCanDataV {
        match self {
            GrappleFirmware::UpdateRequest { serial } => FrcCanDataV {
                id: GrappleFirmware::firmware_id(0x00),
                data: u32_le_bytes(*serial) + seq![0u8, 0u8, 0u8, 0u8],
                len: 4,
            },
            GrappleFirmware::UpdateReady { serial, model_id } => FrcCanDataV {
                id: GrappleFirmware::firmware_id(0x01),
                data: u32_le_bytes(*serial) + seq![model_id.spec_tag(), 0u8, 0u8, 0u8],
                len: 4,
            },
            GrappleFirmware::UpdatePart { serial, data, len } => FrcCanDataV {
                id: GrappleFirmware::firmware_id(0x02),
                data: u32_le_bytes(*serial) + seq![data.0, data.1, data.2, data.3],
                len: (4 + *len) as u8,
            },
            GrappleFirmware::UpdatePartAck { serial } => FrcCanDataV {
                id: GrappleFirmware::firmware_id(0x03),
                data: u32_le_bytes(*serial) + seq![0u8, 0u8, 0u8, 0u8],
                len: 4,
            },
            GrappleFirmware::UpdateDone { serial } => FrcCanDataV {
                id: GrappleFirmware::firmware_id(0x04),
                data: u32_le_bytes(*serial) + seq![0u8, 0u8, 0u8, 0u8],
                len: 4,
            },
        }
    }

    fn encode(&self) -> (r: FrcCanData) {
        let (api_index, tail, len): (u8, (u8, u8, u8, u8), u8) = match self {
            GrappleFirmware::UpdateRequest { .. } => (0x00, (0, 0, 0, 0), 4),
            GrappleFirmware::UpdateReady { model_id, .. } => (0x01, (model_id.tag(), 0, 0, 0), 4),
            GrappleFirmware::UpdatePart { data, len, .. } => (0x02, *data, 4 + *len),
            GrappleFirmware::UpdatePartAck { .. } => (0x03, (0, 0, 0, 0), 4),
            GrappleFirmware::UpdateDone { .. } => (0x04, (0, 0, 0, 0), 4),
        };
        let serial = match self {
            GrappleFirmware::UpdateRequest { serial } => *serial,
            GrappleFirmware::UpdateReady { serial, .. } => *serial,
            GrappleFirmware::UpdatePart { serial, .. } => *serial,
            GrappleFirmware::UpdatePartAck { serial } => *serial,
            GrappleFirmware::UpdateDone { serial } => *serial,
        };
        let mut d: Vec<u8> = Vec::new();
        push_u32_le(&mut d, serial);
        d.push(tail.0);
        d.push(tail.1);
        d.push(tail.2);
        d.push(tail.3);
        let r = FrcCanData {
            id: FrcCanId::new(
                DEVICE_FIRMWARE_UPDATE,
                GRAPPLE_MANUFACTURER,
                FIRMWARE_UPDATE_CLASS,
                api_index,
                DEVICE_ID_BROADCAST,
            ),
            data: d,
            len,
        };
        proof {
            assert(r@.data =~= self.spec_encode().data);
        }
        r
    }
}

impl FrcCanDecodable for GrappleFirmware {
    open spec fn spec_decode(d: FrcCanDataV) -> Option<GrappleFirmware> {
        if d.id.manufacturer != GRAPPLE_MANUFACTURER || d.id.device_type != DEVICE_FIRMWARE_UPDATE
            || d.id.api_class != FIRMWARE_UPDATE_CLASS || d.id.device_id != DEVICE_ID_BROADCAST {
            None
        } else if d.id.api_index == 0x00 && d.len == 4 {
            Some(GrappleFirmware::UpdateRequest { serial: le32_at(d.data, 0) })
        } else if d.id.api_index == 0x01 && d.len == 4 {
            match GrappleModelId::spec_from_tag(d.data[4]) {
                Some(model_id) => Some(
                    GrappleFirmware::UpdateReady { serial: le32_at(d.data, 0), model_id },
                ),
                None => None,
            }
        } else if d.id.api_index == 0x02 && d.len >= 4 {
            Some(
                GrappleFirmware::UpdatePart {
                    serial: le32_at(d.data, 0),
                    data: (d.data[4], d.data[5], d.data[6], d.data[7]),
                    len: (d.len - 4) as u8,
                },
            )
        } else if d.id.api_index == 0x03 && d.len == 4 {
            Some(GrappleFirmware::UpdatePartAck { serial: le32_at(d.data, 0) })
        } else if d.id.api_index == 0x04 && d.len == 4 {
            Some(GrappleFirmware::UpdateDone { serial: le32_at(d.data, 0) })
        } else {
            None
        }
    }

    fn decode(d: &FrcCanData) -> (r: Option<GrappleFirmware>) {
        if d.id.manufacturer != GRAPPLE_MANUFACTURER || d.id.device_type != DEVICE_FIRMWARE_UPDATE
            || d.id.api_class != FIRMWARE_UPDATE_CLASS || d.id.device_id != DEVICE_ID_BROADCAST {
            None
        } else if d.id.api_index == 0x00 && d.len == 4 {
            Some(GrappleFirmware::UpdateRequest { serial: read_u32(d.data.as_slice()) })
        } else if d.id.api_index == 0x01 && d.len == 4 {
            match GrappleModelId::from_tag(d.data[4]) {
                Some(model_id) => Some(
                    GrappleFirmware::UpdateReady { serial: read_u32(d.data.as_slice()), model_id },
                ),
                None => None,
            }
        } else if d.id.api_index == 0x02 && d.len >= 4 {
            Some(
                GrappleFirmware::UpdatePart {
                    serial: read_u32(d.data.as_slice()),
                    data: (d.data[4], d.data[5], d.data[6], d.data[7]),
                    len: d.len - 4,
                },
            )
        } else if d.id.api_index == 0x03 && d.len == 4 {
            Some(GrappleFirmware::UpdatePartAck { serial: read_u32(d.data.as_slice()) })
        } else if d.id.api_index == 0x04 && d.len == 4 {
            Some(GrappleFirmware::UpdateDone { serial: read_u32(d.data.as_slice()) })
        } else {
            None
        }
    }
}

/// Region of interest of the distance sensor.
#[derive(Debug, Clone, Copy, PartialEq, Eq, Structural)]
pub struct GrappleLaserCanRoi {
    pub x: u8,
    pub y: u8,
    pub w: u8,
    pub h: u8,
}

/// Distance sensor operations.
#[derive(Debug, Clone, Copy, PartialEq, Eq, Structural)]
pub enum GrappleLaserCan {
    Status {
        device_id: u8,
        status: u8,
        distance_mm: u16,
        ambient: u16,
        long: bool,
        budget_ms: u8,
        roi: GrappleLaserCanRoi,
    },
    SetRange { device_id: u8, long: bool },
    SetRoi { device_id: u8, roi: GrappleLaserCanRoi },
    SetTimingBudget { device_id: u8, budget_ms: u8 },
    SaveConfig { device_id: u8 },
}

impl View for GrappleLaserCan {
    type V = GrappleLaserCan;

    open spec fn view(&self) -> GrappleLaserCan {
        *self
    }
}

impl GrappleLaserCan {
    pub open spec fn lasercan_id(api_class: u8, api_index: u8, device_id: u8) -> FrcCanId {
        FrcCanId {
            device_type: DEVICE_ULTRASONIC,
            manufacturer: GRAPPLE_MANUFACTURER,
            api_class,
            api_index,
            device_id,
        }
    }
}

impl FrcCanEncodable for GrappleLaserCan {
    /// Packed status fields fit their widths: a seven-bit budget, four-bit
    /// region coordinates and a region extent offset by four.
    open spec fn enc_wf(&self) -> bool {
        match self {
            GrappleLaserCan::Status { budget_ms, roi, .. } => *budget_ms < 128 && roi.x < 16
                && roi.y < 16 && 4 <= roi.w < 20 && 4 <= roi.h < 20,
            _ => true,
        }
    }

    open spec fn spec_encode(&self) -> FrcCanDataV {
        match self {
            GrappleLaserCan::Status {
                device_id,
                status,
                distance_mm,
                ambient,
                long,
                budget_ms,
                roi,
            } => FrcCanDataV {
                id: GrappleLaserCan::lasercan_id(0x00, 0x00, *device_id),
                data: seq![*status] + u16_le_bytes(*distance_mm) + u16_le_bytes(*ambient) + seq![
                    (((if *long {
                        128int
                    } else {
                        0int
                    }) + *budget_ms) as u8),
                    (((roi.x % 16) * 16 + (roi.y % 16)) as u8),
                    ((((roi.w - 4) % 16) * 16 + ((roi.h - 4) % 16)) as u8),
                ],
                len: 8,
            },
            GrappleLaserCan::SetRange { device_id, long } => FrcCanDataV {
                id: GrappleLaserCan::lasercan_id(0x21, 0x00, *device_id),
                data: seq![
                    (if *long {
                        1u8
                    } else {
                        0u8
                    }),
                    0u8,
                    0u8,
                    0u8,
                    0u8,
                    0u8,
                    0u8,
                    0u8,
                ],
                len: 1,
            },
            GrappleLaserCan::SetRoi { device_id, roi } => FrcCanDataV {
                id: GrappleLaserCan::lasercan_id(0x21, 0x01, *device_id),
                data: seq![roi.x, roi.y, roi.w, roi.h, 0u8, 0u8, 0u8, 0u8],
                len: 4,
            },
            GrappleLaserCan::SetTimingBudget { device_id, budget_ms } => FrcCanDataV {
                id: GrappleLaserCan::lasercan_id(0x21, 0x02, *device_id),
                data: seq![*budget_ms, 0u8, 0u8, 0u8, 0u8, 0u8, 0u8, 0u8],
                len: 1,
            },
            GrappleLaserCan::SaveConfig { device_id } => FrcCanDataV {
                id: GrappleLaserCan::lasercan_id(0x30, 0x00, *device_id),
                data: seq![0u8, 0u8, 0u8, 0u8, 0u8, 0u8, 0u8, 0u8],
                len: 0,
            },
        }
    }

    fn encode(&self) -> (r: FrcCanData) {
        match self {
            GrappleLaserCan::Status {
                device_id,
                status,
                distance_mm,
                ambient,
                long,
                budget_ms,
                roi,
            } => {
                let mut d: Vec<u8> = Vec::new();
                d.push(*status);
                push_u16_le(&mut d, *distance_mm);
                push_u16_le(&mut d, *ambient);
                d.push(
                    (if *long {
                        128u8
                    } else {
                        0u8
                    }) + *budget_ms % 128,
                );
                d.push((roi.x % 16) * 16 + (roi.y % 16));
                d.push(((roi.w - 4) % 16) * 16 + ((roi.h - 4) % 16));
                let r = FrcCanData {
                    id: FrcCanId::new(
                        DEVICE_ULTRASONIC,
                        GRAPPLE_MANUFACTURER,
                        0x00,
                        0x00,
                        *device_id,
                    ),
                    data: d,
                    len: 8,
                };
                proof {
                    assert(r@.data =~= self.spec_encode().data);
                }
                r
            },
            GrappleLaserCan::SetRange { device_id, long } => {
                let mut d: Vec<u8> = Vec::new();
                d.push(
                    if *long {
                        1
                    } else {
                        0
                    },
                );
                let mut i: usize = 0;
                while i < 7
                    invariant
                        i <= 7,
                        d@.len() == 1 + i,
                        d@[0] == (if *long {
                            1u8
                        } else {
                            0u8
                        }),
                        forall|j: int| 1 <= j < d@.len() ==> d@[j] == 0u8,
                    decreases 7 - i,
                {
                    d.push(0);
                    i = i + 1;
                }
                let r = FrcCanData {
                    id: FrcCanId::new(
                        DEVICE_ULTRASONIC,
                        GRAPPLE_MANUFACTURER,
                        0x21,
                        0x00,
                        *device_id,
                    ),
                    data: d,
                    len: 1,
                };
                proof {
                    assert(r@.data =~= self.spec_encode().data);
                }
                r
            },
            GrappleLaserCan::SetRoi { device_id, roi } => {
                let mut d: Vec<u8> = Vec::new();
                d.push(roi.x);
                d.push(roi.y);
                d.push(roi.w);
                d.push(roi.h);
                d.push(0);
                d.push(0);
                d.push(0);
                d.push(0);
                let r = FrcCanData {
                    id: FrcCanId::new(
                        DEVICE_ULTRASONIC,
                        GRAPPLE_MANUFACTURER,
                        0x21,
                        0x01,
                        *device_id,
                    ),
                    data: d,
                    len: 4,
                };
                proof {
                    assert(r@.data =~= self.spec_encode().data);
                }
                r
            },
            GrappleLaserCan::SetTimingBudget { device_id, budget_ms } => {
                let mut d: Vec<u8> = Vec::new();
                d.push(*budget_ms);
                d.push(0);
                d.push(0);
                d.push(0);
                d.push(0);
                d.push(0);
                d.push(0);
                d.push(0);
                let r = FrcCanData {
                    id: FrcCanId::new(
                        DEVICE_ULTRASONIC,
                        GRAPPLE_MANUFACTURER,
                        0x21,
                        0x02,
                        *device_id,
                    ),
                    data: d,
                    len: 1,
                };
                proof {
                    assert(r@.data =~= self.spec_encode().data);
                }
                r
            },
            GrappleLaserCan::SaveConfig { device_id } => {
                let mut d: Vec<u8> = Vec::new();
                let mut i: usize = 0;
                while i < 8
                    invariant
                        i <= 8,
                        d@ == Seq::new(i as nat, |j: int| 0u8),
                    decreases 8 - i,
                {
                    d.push(0);
                    proof {
                        assert(d@ =~= Seq::new(i as nat + 1, |j: int| 0u8));
                    }
                    i = i + 1;
                }
                let r = FrcCanData {
                    id: FrcCanId::new(
                        DEVICE_ULTRASONIC,
                        GRAPPLE_MANUFACTURER,
                        0x30,
                        0x00,
                        *device_id,
                    ),
                    data: d,
                    len: 0,
                };
                proof {
                    assert(r@.data =~= self.spec_encode().data);
                }
                r
            },
        }
    }
}

impl FrcCanDecodable for GrappleLaserCan {
    open spec fn spec_decode(d: FrcCanDataV) -> Option<GrappleLaserCan> {
        if d.id.manufacturer != GRAPPLE_MANUFACTURER || d.id.device_type != DEVICE_ULTRASONIC {
            None
        } else if d.id.api_class == 0x00 && d.id.api_index == 0x00 && d.len == 8 {
            Some(
                GrappleLaserCan::Status {
                    device_id: d.id.device_id,
                    status: d.data[0],
                    distance_mm: le16_at(d.data, 1),
                    ambient: le16_at(d.data, 3),
                    long: ((d.data[5] / 128) % 2) == 1,
                    budget_ms: (d.data[5] % 128) as u8,
                    roi: GrappleLaserCanRoi {
                        x: ((d.data[6] / 16) % 16) as u8,
                        y: (d.data[6] % 16) as u8,
                        w: (((d.data[7] / 16) % 16) + 4) as u8,
                        h: ((d.data[7] % 16) + 4) as u8,
                    },
                },
            )
        } else if d.id.api_class == 0x21 && d.id.api_index == 0x00 && d.len == 1 {
            Some(GrappleLaserCan::SetRange { device_id: d.id.device_id, long: d.data[0] != 0 })
        } else if d.id.api_class == 0x21 && d.id.api_index == 0x01 && d.len == 4 {
            Some(
                GrappleLaserCan::SetRoi {
                    device_id: d.id.device_id,
                    roi: GrappleLaserCanRoi {
                        x: d.data[0],
                        y: d.data[1],
                        w: d.data[2],
                        h: d.data[3],
                    },
                },
            )
        } else if d.id.api_class == 0x21 && d.id.api_index == 0x02 && d.len == 1 {
            Some(
                GrappleLaserCan::SetTimingBudget {
                    device_id: d.id.device_id,
                    budget_ms: d.data[0],
                },
            )
        } else if d.id.api_class == 0x30 && d.id.api_index == 0x00 {
            Some(GrappleLaserCan::SaveConfig { device_id: d.id.device_id })
        } else {
            None
        }
    }

    fn decode(d: &FrcCanData) -> (r: Option<GrappleLaserCan>) {
        if d.id.manufacturer != GRAPPLE_MANUFACTURER || d.id.device_type != DEVICE_ULTRASONIC {
            None
        } else if d.id.api_class == 0x00 && d.id.api_index == 0x00 && d.len == 8 {
            Some(
                GrappleLaserCan::Status {
                    device_id: d.id.device_id,
                    status: d.data[0],
                    distance_mm: read_u16(&d.data.as_slice()[1..3]),
                    ambient: read_u16(&d.data.as_slice()[3..5]),
                    long: ((d.data[5] / 128) % 2) == 1,
                    budget_ms: d.data[5] % 128,
                    roi: GrappleLaserCanRoi {
                        x: (d.data[6] / 16) % 16,
                        y: d.data[6] % 16,
                        w: ((d.data[7] / 16) % 16) + 4,
                        h: (d.data[7] % 16) + 4,
                    },
                },
            )
        } else if d.id.api_class == 0x21 && d.id.api_index == 0x00 && d.len == 1 {
            Some(GrappleLaserCan::SetRange { device_id: d.id.device_id, long: d.data[0] != 0 })
        } else if d.id.api_class == 0x21 && d.id.api_index == 0x01 && d.len == 4 {
            Some(
                GrappleLaserCan::SetRoi {
                    device_id: d.id.device_id,
                    roi: GrappleLaserCanRoi {
                        x: d.data[0],
                        y: d.data[1],
                        w: d.data[2],
                        h: d.data[3],
                    },
                },
            )
        } else if d.id.api_class == 0x21 && d.id.api_index == 0x02 && d.len == 1 {
            Some(
                GrappleLaserCan::SetTimingBudget {
                    device_id: d.id.device_id,
                    budget_ms: d.data[0],
                },
            )
        } else if d.id.api_class == 0x30 && d.id.api_index == 0x00 {
            Some(GrappleLaserCan::SaveConfig { device_id: d.id.device_id })
        } else {
            None
        }
    }
}

/// Input pull of an I/O breakout pin.
#[derive(Debug, Clone, Copy, PartialEq, Eq, Structural)]
pub enum SpiderCanPull {
    NoPull,
    PullUp,
    PullDown,
}

/// Output stage of an I/O breakout pin.
#[derive(Debug, Clone, Copy, PartialEq, Eq, Structural)]
pub enum SpiderCanOutputMode {
    PushPull,
    OpenDrain,
}

/// Mode of one I/O breakout pin.
#[derive(Debug, Clone, Copy, PartialEq, Eq, Structural)]
pub enum SpiderCanPinMode {
    DigitalIn(SpiderCanPull),
    DigitalOut(SpiderCanOutputMode),
    Analog,
}

impl SpiderCanPinMode {
    pub open spec fn spec_code(self) -> u8 {
        match self {
            SpiderCanPinMode::DigitalIn(SpiderCanPull::NoPull) => 0,
            SpiderCanPinMode::DigitalIn(SpiderCanPull::PullUp) => 1,
            SpiderCanPinMode::DigitalIn(SpiderCanPull::PullDown) => 2,
            SpiderCanPinMode::DigitalOut(SpiderCanOutputMode::PushPull) => 4,
            SpiderCanPinMode::DigitalOut(SpiderCanOutputMode::OpenDrain) => 5,
            SpiderCanPinMode::Analog => 3,
        }
    }

    /// Unknown codes fall back to an input with its pull-up on.
    pub open spec fn spec_from_code(c: u8) -> SpiderCanPinMode {
        if c == 0 {
            SpiderCanPinMode::DigitalIn(SpiderCanPull::NoPull)
        } else if c == 1 {
            SpiderCanPinMode::DigitalIn(SpiderCanPull::PullUp)
        } else if c == 2 {
            SpiderCanPinMode::DigitalIn(SpiderCanPull::PullDown)
        } else if c == 4 {
            SpiderCanPinMode::DigitalOut(SpiderCanOutputMode::PushPull)
        } else if c == 5 {
            SpiderCanPinMode::DigitalOut(SpiderCanOutputMode::OpenDrain)
        } else if c == 3 {
            SpiderCanPinMode::Analog
        } else {
            SpiderCanPinMode::DigitalIn(SpiderCanPull::PullUp)
        }
    }

    pub fn code(&self) -> (c: u8)
        ensures
            c == self.spec_code(),
            c < 6,
    {
        match self {
            SpiderCanPinMode::DigitalIn(SpiderCanPull::NoPull) => 0,
            SpiderCanPinMode::DigitalIn(SpiderCanPull::PullUp) => 1,
            SpiderCanPinMode::DigitalIn(SpiderCanPull::PullDown) => 2,
            SpiderCanPinMode::DigitalOut(SpiderCanOutputMode::PushPull) => 4,
            SpiderCanPinMode::DigitalOut(SpiderCanOutputMode::OpenDrain) => 5,
            SpiderCanPinMode::Analog => 3,
        }
    }

    pub fn from_code(c: u8) -> (r: SpiderCanPinMode)
        ensures
            r == SpiderCanPinMode::spec_from_code(c),
    {
        if c == 0 {
            SpiderCanPinMode::DigitalIn(SpiderCanPull::NoPull)
        } else if c == 1 {
            SpiderCanPinMode::DigitalIn(SpiderCanPull::PullUp)
        } else if c == 2 {
            SpiderCanPinMode::DigitalIn(SpiderCanPull::PullDown)
        } else if c == 4 {
            SpiderCanPinMode::DigitalOut(SpiderCanOutputMode::PushPull)
        } else if c == 5 {
            SpiderCanPinMode::DigitalOut(SpiderCanOutputMode::OpenDrain)
        } else if c == 3 {
            SpiderCanPinMode::Analog
        } else {
            SpiderCanPinMode::DigitalIn(SpiderCanPull::PullUp)
        }
    }
}

/// I/O breakout operations.
#[derive(Debug, Clone, PartialEq, Eq)]
pub enum GrappleSpiderCan {
    StatusDigital { device_id: u8, pin_status: Vec<bool>, pin_modes: Vec<SpiderCanPinMode> },
    StatusAnalog { device_id: u8, frame_number: u8, pin_status: Vec<u16> },
    ConfigurePin { device_id: u8, pin_id: u8, mode: SpiderCanPinMode },
    SaveConfig { device_id: u8 },
}

/// The mathematical model of [`GrappleSpiderCan`].
pub enum GrappleSpiderCanV {
    StatusDigital { device_id: u8, pin_status: Seq<bool>, pin_modes: Seq<SpiderCanPinMode> },
    StatusAnalog { device_id: u8, frame_number: u8, pin_status: Seq<u16> },
    ConfigurePin { device_id: u8, pin_id: u8, mode: SpiderCanPinMode },
    SaveConfig { device_id: u8 },
}

impl View for GrappleSpiderCan {
    type V = GrappleSpiderCanV;

    open spec fn view(&self) -> GrappleSpiderCanV {
        match self {
            GrappleSpiderCan::StatusDigital { device_id, pin_status, pin_modes } => {
                GrappleSpiderCanV::StatusDigital {
                    device_id: *device_id,
                    pin_status: pin_status@,
                    pin_modes: pin_modes@,
                }
            },
            GrappleSpiderCan::StatusAnalog { device_id, frame_number, pin_status } => {
                GrappleSpiderCanV::StatusAnalog {
                    device_id: *device_id,
                    frame_number: *frame_number,
                    pin_status: pin_status@,
                }
            },
            GrappleSpiderCan::ConfigurePin { device_id, pin_id, mode } => {
                GrappleSpiderCanV::ConfigurePin {
                    device_id: *device_id,
                    pin_id: *pin_id,
                    mode: *mode,
                }
            },
            GrappleSpiderCan::SaveConfig { device_id } => GrappleSpiderCanV::SaveConfig {
                device_id: *device_id,
            },
        }
    }
}

/// One bit per pin, least significant bit first.
pub open spec fn pin_bits(ps: Seq<bool>) -> u8
    recommends
        ps.len() == 8,
{
    ((if ps[0] {
        1int
    } else {
        0int
    }) + (if ps[1] {
        2int
    } else {
        0int
    }) + (if ps[2] {
        4int
    } else {
        0int
    }) + (if ps[3] {
        8int
    } else {
        0int
    }) + (if ps[4] {
        16int
    } else {
        0int
    }) + (if ps[5] {
        32int
    } else {
        0int
    }) + (if ps[6] {
        64int
    } else {
        0int
    }) + (if ps[7] {
        128int
    } else {
        0int
    })) as u8
}

/// Two mode codes per byte, low nibble first.
pub open spec fn mode_pair(lo: SpiderCanPinMode, hi: SpiderCanPinMode) -> u8 {
    (lo.spec_code() + hi.spec_code() * 16) as u8
}

impl GrappleSpiderCanV {
    pub open spec fn spidercan_id(api_class: u8, api_index: u8, device_id: u8) -> FrcCanId {
        FrcCanId {
            device_type: DEVICE_IO_BREAKOUT,
            manufacturer: GRAPPLE_MANUFACTURER,
            api_class,
            api_index,
            device_id,
        }
    }
}

impl FrcCanEncodable for GrappleSpiderCan {
    /// Status frames report all eight (or four analog) pins; the analog
    /// frame number fits its four identifier bits.
    open spec fn enc_wf(&self) -> bool {
        match self@ {
            GrappleSpiderCanV::StatusDigital { pin_status, pin_modes, .. } => pin_status.len() == 8
                && pin_modes.len() == 8,
            GrappleSpiderCanV::StatusAnalog { frame_number, pin_status, .. } => pin_status.len()
                == 4 && frame_number < 16,
            _ => true,
        }
    }

    open spec fn spec_encode(&self) -> FrcCanDataV {
        match self@ {
            GrappleSpiderCanV::StatusDigital { device_id, pin_status, pin_modes } => FrcCanDataV {
                id: GrappleSpiderCanV::spidercan_id(0x20, 0x00, device_id),
                data: seq![
                    pin_bits(pin_status),
                    mode_pair(pin_modes[0], pin_modes[1]),
                    mode_pair(pin_modes[2], pin_modes[3]),
                    mode_pair(pin_modes[4], pin_modes[5]),
                    mode_pair(pin_modes[6], pin_modes[7]),
                    0u8,
                    0u8,
                    0u8,
                ],
                len: 5,
            },
            GrappleSpiderCanV::StatusAnalog { device_id, frame_number, pin_status } => FrcCanDataV {
                id: GrappleSpiderCanV::spidercan_id(0x21, frame_number, device_id),
                data: u16_le_bytes(pin_status[0]) + u16_le_bytes(pin_status[1]) + u16_le_bytes(
                    pin_status[2],
                ) + u16_le_bytes(pin_status[3]),
                len: 8,
            },
            GrappleSpiderCanV::ConfigurePin { device_id, pin_id, mode } => FrcCanDataV {
                id: GrappleSpiderCanV::spidercan_id(0x22, 0x00, device_id),
                data: seq![pin_id, mode.spec_code(), 0u8, 0u8, 0u8, 0u8, 0u8, 0u8],
                len: 2,
            },
            GrappleSpiderCanV::SaveConfig { device_id } => FrcCanDataV {
                id: GrappleSpiderCanV::spidercan_id(0x30, 0x00, device_id),
                data: seq![0u8, 0u8, 0u8, 0u8, 0u8, 0u8, 0u8, 0u8],
                len: 0,
            },
        }
    }

    #[verifier::rlimit(100)]
    #[verifier::spinoff_prover]
    fn encode(&self) -> (r: FrcCanData) {
        match self {
            GrappleSpiderCan::StatusDigital { device_id, pin_status, pin_modes } => {
                let bits: u8 = (if pin_status[0] {
                    1u8
                } else {
                    0u8
                }) + (if pin_status[1] {
                    2u8
                } else {
                    0u8
                }) + (if pin_status[2] {
                    4u8
                } else {
                    0u8
                }) + (if pin_status[3] {
                    8u8
                } else {
                    0u8
                }) + (if pin_status[4] {
                    16u8
                } else {
                    0u8
                }) + (if pin_status[5] {
                    32u8
                } else {
                    0u8
                }) + (if pin_status[6] {
                    64u8
                } else {
                    0u8
                }) + (if pin_status[7] {
                    128u8
                } else {
                    0u8
                });
                let mut d: Vec<u8> = Vec::new();
                d.push(bits);
                d.push(pin_modes[0].code() + pin_modes[1].code() * 16);
                d.push(pin_modes[2].code() + pin_modes[3].code() * 16);
                d.push(pin_modes[4].code() + pin_modes[5].code() * 16);
                d.push(pin_modes[6].code() + pin_modes[7].code() * 16);
                d.push(0);
                d.push(0);
                d.push(0);
                let r = FrcCanData {
                    id: FrcCanId::new(
                        DEVICE_IO_BREAKOUT,
                        GRAPPLE_MANUFACTURER,
                        0x20,
                        0x00,
                        *device_id,
                    ),
                    data: d,
                    len: 5,
                };
                proof {
                    assert(r@.data =~= self.spec_encode().data);
                }
                r
            },
            GrappleSpiderCan::StatusAnalog { device_id, frame_number, pin_status } => {
                let mut d: Vec<u8> = Vec::new();
                push_u16_le(&mut d, pin_status[0]);
                push_u16_le(&mut d, pin_status[1]);
                push_u16_le(&mut d, pin_status[2]);
                push_u16_le(&mut d, pin_status[3]);
                let r = FrcCanData {
                    id: FrcCanId::new(
                        DEVICE_IO_BREAKOUT,
                        GRAPPLE_MANUFACTURER,
                        0x21,
                        *frame_number,
                        *device_id,
                    ),
                    data: d,
                    len: 8,
                };
                proof {
                    assert(r@.data =~= self.spec_encode().data);
                }
                r
            },
            GrappleSpiderCan::ConfigurePin { device_id, pin_id, mode } => {
                let mut d: Vec<u8> = Vec::new();
                d.push(*pin_id);
                d.push(mode.code());
                d.push(0);
                d.push(0);
                d.push(0);
                d.push(0);
                d.push(0);
                d.push(0);
                let r = FrcCanData {
                    id: FrcCanId::new(
                        DEVICE_IO_BREAKOUT,
                        GRAPPLE_MANUFACTURER,
                        0x22,
                        0x00,
                        *device_id,
                    ),
                    data: d,
                    len: 2,
                };
                proof {
                    assert(r@.data =~= self.spec_encode().data);
                }
                r
            },
            GrappleSpiderCan::SaveConfig { device_id } => {
                let mut d: Vec<u8> = Vec::new();
                let mut i: usize = 0;
                while i < 8
                    invariant
                        i <= 8,
                        d@ == Seq::new(i as nat, |j: int| 0u8),
                    decreases 8 - i,
                {
                    d.push(0);
                    proof {
                        assert(d@ =~= Seq::new(i as nat + 1, |j: int| 0u8));
                    }
                    i = i + 1;
                }
                let r = FrcCanData {
                    id: FrcCanId::new(
                        DEVICE_IO_BREAKOUT,
                        GRAPPLE_MANUFACTURER,
                        0x30,
                        0x00,
                        *device_id,
                    ),
                    data: d,
                    len: 0,
                };
                proof {
                    assert(r@.data =~= self.spec_encode().data);
                }
                r
            },
        }
    }
}

impl FrcCanDecodable for GrappleSpiderCan {
    open spec fn spec_decode(d: FrcCanDataV) -> Option<GrappleSpiderCanV> {
        if d.id.manufacturer != GRAPPLE_MANUFACTURER || d.id.device_type != DEVICE_IO_BREAKOUT {
            None
        } else if d.id.api_class == 0x20 && d.id.api_index == 0x00 && d.len == 5 {
            Some(
                GrappleSpiderCanV::StatusDigital {
                    device_id: d.id.device_id,
                    pin_status: Seq::new(8, |i: int| ((d.data[0] / pin_weight(i)) % 2) == 1),
                    pin_modes: Seq::new(
                        8,
                        |i: int|
                            SpiderCanPinMode::spec_from_code(
                                (if i % 2 == 0 {
                                    d.data[1 + i / 2] % 16
                                } else {
                                    (d.data[1 + i / 2] / 16) % 16
                                }) as u8,
                            ),
                    ),
                },
            )
        } else if d.id.api_class == 0x21 && d.len == 8 {
            Some(
                GrappleSpiderCanV::StatusAnalog {
                    device_id: d.id.device_id,
                    frame_number: d.id.api_index,
                    pin_status: seq![
                        le16_at(d.data, 0),
                        le16_at(d.data, 2),
                        le16_at(d.data, 4),
                        le16_at(d.data, 6),
                    ],
                },
            )
        } else if d.id.api_class == 0x22 && d.id.api_index == 0x00 && d.len == 2 {
            Some(
                GrappleSpiderCanV::ConfigurePin {
                    device_id: d.id.device_id,
                    pin_id: d.data[0],
                    mode: SpiderCanPinMode::spec_from_code((d.data[1] % 16) as u8),
                },
            )
        } else if d.id.api_class == 0x30 && d.id.api_index == 0x00 {
            Some(GrappleSpiderCanV::SaveConfig { device_id: d.id.device_id })
        } else {
            None
        }
    }

    #[verifier::rlimit(100)]
    #[verifier::spinoff_prover]
    fn decode(d: &FrcCanData) -> (r: Option<GrappleSpiderCan>) {
        if d.id.manufacturer != GRAPPLE_MANUFACTURER || d.id.device_type != DEVICE_IO_BREAKOUT {
            None
        } else if d.id.api_class == 0x20 && d.id.api_index == 0x00 && d.len == 5 {
            let b0 = d.data[0];
            let mut pin_status: Vec<bool> = Vec::new();
            pin_status.push((b0 / 1) % 2 == 1);
            pin_status.push((b0 / 2) % 2 == 1);
            pin_status.push((b0 / 4) % 2 == 1);
            pin_status.push((b0 / 8) % 2 == 1);
            pin_status.push((b0 / 16) % 2 == 1);
            pin_status.push((b0 / 32) % 2 == 1);
            pin_status.push((b0 / 64) % 2 == 1);
            pin_status.push((b0 / 128) % 2 == 1);
            let mut pin_modes: Vec<SpiderCanPinMode> = Vec::new();
            pin_modes.push(SpiderCanPinMode::from_code(d.data[1] % 16));
            pin_modes.push(SpiderCanPinMode::from_code((d.data[1] / 16) % 16));
            pin_modes.push(SpiderCanPinMode::from_code(d.data[2] % 16));
            pin_modes.push(SpiderCanPinMode::from_code((d.data[2] / 16) % 16));
            pin_modes.push(SpiderCanPinMode::from_code(d.data[3] % 16));
            pin_modes.push(SpiderCanPinMode::from_code((d.data[3] / 16) % 16));
            pin_modes.push(SpiderCanPinMode::from_code(d.data[4] % 16));
            pin_modes.push(SpiderCanPinMode::from_code((d.data[4] / 16) % 16));
            proof {
                assert(pin_status@ =~= Seq::new(
                    8,
                    |i: int| ((d@.data[0] / pin_weight(i)) % 2) == 1,
                ));
                assert(pin_modes@ =~= Seq::new(
                    8,
                    |i: int|
                        SpiderCanPinMode::spec_from_code(
                            (if i % 2 == 0 {
                                d@.data[1 + i / 2] % 16
                            } else {
                                (d@.data[1 + i / 2] / 16) % 16
                            }) as u8,
                        ),
                ));
            }
            Some(
                GrappleSpiderCan::StatusDigital {
                    device_id: d.id.device_id,
                    pin_status,
                    pin_modes,
                },
            )
        } else if d.id.api_class == 0x21 && d.len == 8 {
            let mut pin_status: Vec<u16> = Vec::new();
            pin_status.push(read_u16(&d.data.as_slice()[0..2]));
            pin_status.push(read_u16(&d.data.as_slice()[2..4]));
            pin_status.push(read_u16(&d.data.as_slice()[4..6]));
            pin_status.push(read_u16(&d.data.as_slice()[6..8]));
            proof {
                assert(pin_status@ =~= seq![
                    le16_at(d@.data, 0),
                    le16_at(d@.data, 2),
                    le16_at(d@.data, 4),
                    le16_at(d@.data, 6),
                ]);
            }
            Some(
                GrappleSpiderCan::StatusAnalog {
                    device_id: d.id.device_id,
                    frame_number: d.id.api_index,
                    pin_status,
                },
            )
        } else if d.id.api_class == 0x22 && d.id.api_index == 0x00 && d.len == 2 {
            Some(
                GrappleSpiderCan::ConfigurePin {
                    device_id: d.id.device_id,
                    pin_id: d.data[0],
                    mode: SpiderCanPinMode::from_code(d.data[1] % 16),
                },
            )
        } else if d.id.api_class == 0x30 && d.id.api_index == 0x00 {
            Some(GrappleSpiderCan::SaveConfig { device_id: d.id.device_id })
        } else {
            None
        }
    }
}

/// The weight of pin `i` in the digital status byte.
pub open spec fn pin_weight(i: int) -> u8 {
    if i == 0 {
        1u8
    } else if i == 1 {
        2u8
    } else if i == 2 {
        4u8
    } else if i == 3 {
        8u8
    } else if i == 4 {
        16u8
    } else if i == 5 {
        32u8
    } else if i == 6 {
        64u8
    } else {
        128u8
    }
}

/// Any vendor message of the single-frame family.
#[derive(Debug, Clone, PartialEq, Eq)]
pub enum Grapple {
    DeviceInfo(GrappleDeviceInfo),
    Firmware(GrappleFirmware),
    LaserCan(GrappleLaserCan),
    SpiderCan(GrappleSpiderCan),
}

/// The mathematical model of [`Grapple`].
pub enum GrappleV {
    DeviceInfo(GrappleDeviceInfo),
    Firmware(GrappleFirmware),
    LaserCan(GrappleLaserCan),
    SpiderCan(GrappleSpiderCanV),
}

impl View for Grapple {
    type V = GrappleV;

    open spec fn view(&self) -> GrappleV {
        match self {
            Grapple::DeviceInfo(m) => GrappleV::DeviceInfo(*m),
            Grapple::Firmware(m) => GrappleV::Firmware(*m),
            Grapple::LaserCan(m) => GrappleV::LaserCan(*m),
            Grapple::SpiderCan(m) => GrappleV::SpiderCan(m@),
        }
    }
}

impl FrcCanEncodable for Grapple {
    open spec fn enc_wf(&self) -> bool {
        match self {
            Grapple::DeviceInfo(m) => m.enc_wf(),
            Grapple::Firmware(m) => m.enc_wf(),
            Grapple::LaserCan(m) => m.enc_wf(),
            Grapple::SpiderCan(m) => m.enc_wf(),
        }
    }

    open spec fn spec_encode(&self) -> FrcCanDataV {
        match self {
            Grapple::DeviceInfo(m) => m.spec_encode(),
            Grapple::Firmware(m) => m.spec_encode(),
            Grapple::LaserCan(m) => m.spec_encode(),
            Grapple::SpiderCan(m) => m.spec_encode(),
        }
    }

    fn encode(&self) -> (r: FrcCanData) {
        match self {
            Grapple::DeviceInfo(m) => m.encode(),
            Grapple::Firmware(m) => m.encode(),
            Grapple::LaserCan(m) => m.encode(),
            Grapple::SpiderCan(m) => m.encode(),
        }
    }
}

impl FrcCanDecodable for Grapple {
    open spec fn spec_decode(d: FrcCanDataV) -> Option<GrappleV> {
        match GrappleDeviceInfo::spec_decode(d) {
            Some(m) => Some(GrappleV::DeviceInfo(m)),
            None => match GrappleFirmware::spec_decode(d) {
                Some(m) => Some(GrappleV::Firmware(m)),
                None => match GrappleLaserCan::spec_decode(d) {
                    Some(m) => Some(GrappleV::LaserCan(m)),
                    None => match GrappleSpiderCan::spec_decode(d) {
                        Some(m) => Some(GrappleV::SpiderCan(m)),
                        None => None,
                    },
                },
            },
        }
    }

    fn decode(d: &FrcCanData) -> (r: Option<Grapple>) {
        match GrappleDeviceInfo::decode(d) {
            Some(m) => Some(Grapple::DeviceInfo(m)),
            None => match GrappleFirmware::decode(d) {
                Some(m) => Some(Grapple::Firmware(m)),
                None => match GrappleLaserCan::decode(d) {
                    Some(m) => Some(Grapple::LaserCan(m)),
                    None => match GrappleSpiderCan::decode(d) {
                        Some(m) => Some(Grapple::SpiderCan(m)),
                        None => None,
                    },
                },
            },
        }
    }
}

/// Decoding an encoded device-info frame restores the message.
pub proof fn lemma_device_info_frame_round_trip(m: GrappleDeviceInfo)
    requires
        m.enc_wf(),
    ensures
        GrappleDeviceInfo::spec_decode(m.spec_encode()) == Some(m),
{
    let d = m.spec_encode();
    match m {
        GrappleDeviceInfo::EnumerateRequest => {},
        GrappleDeviceInfo::EnumerateResponse { device_id, model_id, firmware_version, serial } => {
            assert(d.data[4] == u32_le_bytes(serial)[0]);
            assert(d.data[5] == u32_le_bytes(serial)[1]);
            assert(d.data[6] == u32_le_bytes(serial)[2]);
            assert(d.data[7] == u32_le_bytes(serial)[3]);
            lemma_u32_le_recompose(serial);
            assert(le32_at(d.data, 4) == serial);
        },
        GrappleDeviceInfo::SetId { device_id, serial } => {
            assert(d.data[0] == u32_le_bytes(serial)[0]);
            assert(d.data[1] == u32_le_bytes(serial)[1]);
            assert(d.data[2] == u32_le_bytes(serial)[2]);
            assert(d.data[3] == u32_le_bytes(serial)[3]);
            lemma_u32_le_recompose(serial);
            assert(le32_at(d.data, 0) == serial);
        },
        GrappleDeviceInfo::Blink { serial } => {
            assert(d.data[0] == u32_le_bytes(serial)[0]);
            assert(d.data[1] == u32_le_bytes(serial)[1]);
            assert(d.data[2] == u32_le_bytes(serial)[2]);
            assert(d.data[3] == u32_le_bytes(serial)[3]);
            lemma_u32_le_recompose(serial);
            assert(le32_at(d.data, 0) == serial);
        },
    }
}

/// Decoding an encoded firmware frame restores the message.
pub proof fn lemma_firmware_frame_round_trip(m: GrappleFirmware)
    requires
        m.enc_wf(),
    ensures
        GrappleFirmware::spec_decode(m.spec_encode()) == Some(m),
{
    let d = m.spec_encode();
    let serial = match m {
        GrappleFirmware::UpdateRequest { serial } => serial,
        GrappleFirmware::UpdateReady { serial, .. } => serial,
        GrappleFirmware::UpdatePart { serial, .. } => serial,
        GrappleFirmware::UpdatePartAck { serial } => serial,
        GrappleFirmware::UpdateDone { serial } => serial,
    };
    assert(d.data[0] == u32_le_bytes(serial)[0]);
    assert(d.data[1] == u32_le_bytes(serial)[1]);
    assert(d.data[2] == u32_le_bytes(serial)[2]);
    assert(d.data[3] == u32_le_bytes(serial)[3]);
    lemma_u32_le_recompose(serial);
    assert(le32_at(d.data, 0) == serial);
}

/// Decoding an encoded distance-sensor frame restores the message.
pub proof fn lemma_lasercan_frame_round_trip(m: GrappleLaserCan)
    requires
        m.enc_wf(),
    ensures
        GrappleLaserCan::spec_decode(m.spec_encode()) == Some(m),
{
    let d = m.spec_encode();
    match m {
        GrappleLaserCan::Status { device_id, status, distance_mm, ambient, long, budget_ms, roi } => {
            assert(d.data[1] == u16_le_bytes(distance_mm)[0]);
            assert(d.data[2] == u16_le_bytes(distance_mm)[1]);
            assert(d.data[3] == u16_le_bytes(ambient)[0]);
            assert(d.data[4] == u16_le_bytes(ambient)[1]);
            lemma_u16_le_recompose(distance_mm);
            lemma_u16_le_recompose(ambient);
            assert(le16_at(d.data, 1) == distance_mm);
            assert(le16_at(d.data, 3) == ambient);
            let lb: int = if long {
                1
            } else {
                0
            };
            assert(d.data[5] == lb * 128 + budget_ms);
            lemma_fundamental_div_mod_converse(lb * 128 + budget_ms, 128, lb, budget_ms as int);
            let x = (roi.x % 16) as int;
            let y = (roi.y % 16) as int;
            assert(d.data[6] == x * 16 + y);
            lemma_fundamental_div_mod_converse(x * 16 + y, 16, x, y);
            let ww = ((roi.w - 4) % 16) as int;
            let hh = ((roi.h - 4) % 16) as int;
            assert(d.data[7] == ww * 16 + hh);
            lemma_fundamental_div_mod_converse(ww * 16 + hh, 16, ww, hh);
        },
        _ => {},
    }
}

/// Decoding an encoded I/O-breakout frame restores the message.
#[verifier::rlimit(100)]
#[verifier::spinoff_prover]
pub proof fn lemma_spidercan_frame_round_trip(m: GrappleSpiderCan)
    requires
        m.enc_wf(),
    ensures
        GrappleSpiderCan::spec_decode(m.spec_encode()) == Some(m@),
{
    let d = m.spec_encode();
    match m {
        GrappleSpiderCan::StatusDigital { device_id, pin_status, pin_modes } => {
            let ps = pin_status@;
            let pm = pin_modes@;
            let b0 = if ps[0] {
                1u8
            } else {
                0u8
            };
            let b1 = if ps[1] {
                1u8
            } else {
                0u8
            };
            let b2 = if ps[2] {
                1u8
            } else {
                0u8
            };
            let b3 = if ps[3] {
                1u8
            } else {
                0u8
            };
            let b4 = if ps[4] {
                1u8
            } else {
                0u8
            };
            let b5 = if ps[5] {
                1u8
            } else {
                0u8
            };
            let b6 = if ps[6] {
                1u8
            } else {
                0u8
            };
            let b7 = if ps[7] {
                1u8
            } else {
                0u8
            };
            let x = pin_bits(ps);
            assert(x == b0 + b1 * 2 + b2 * 4 + b3 * 8 + b4 * 16 + b5 * 32 + b6 * 64 + b7 * 128);
            assert(b0 <= 1 && b1 <= 1 && b2 <= 1 && b3 <= 1 && b4 <= 1 && b5 <= 1 && b6 <= 1 && b7
                <= 1 ==> {
                let v = (b0 + b1 * 2 + b2 * 4 + b3 * 8 + b4 * 16 + b5 * 32 + b6 * 64 + b7
                    * 128) as u8;
                &&& ((v / 1) % 2) == b0
                &&& ((v / 2) % 2) == b1
                &&& ((v / 4) % 2) == b2
                &&& ((v / 8) % 2) == b3
                &&& ((v / 16) % 2) == b4
                &&& ((v / 32) % 2) == b5
                &&& ((v / 64) % 2) == b6
                &&& ((v / 128) % 2) == b7
            }) by (bit_vector);
            let dec = GrappleSpiderCan::spec_decode(d);
            assert(dec is Some);
            let sd = dec->0;
            assert(sd matches GrappleSpiderCanV::StatusDigital { pin_status: qs, pin_modes: qm, .. }
                ==> qs =~= ps && qm =~= pm) by {
                match sd {
                    GrappleSpiderCanV::StatusDigital { pin_status: qs, pin_modes: qm, .. } => {
                        assert forall|i: int| 0 <= i < 8 implies qs[i] == ps[i] by {
                            assert(pin_weight(i) == pin_weight(i));
                        }
                        let c0 = pm[0].spec_code() as int;
                        let c1 = pm[1].spec_code() as int;
                        let c2 = pm[2].spec_code() as int;
                        let c3 = pm[3].spec_code() as int;
                        let c4 = pm[4].spec_code() as int;
                        let c5 = pm[5].spec_code() as int;
                        let c6 = pm[6].spec_code() as int;
                        let c7 = pm[7].spec_code() as int;
                        lemma_fundamental_div_mod_converse(c0 + c1 * 16, 16, c1, c0);
                        lemma_fundamental_div_mod_converse(c2 + c3 * 16, 16, c3, c2);
                        lemma_fundamental_div_mod_converse(c4 + c5 * 16, 16, c5, c4);
                        lemma_fundamental_div_mod_converse(c6 + c7 * 16, 16, c7, c6);
                        assert forall|i: int| 0 <= i < 8 implies qm[i] == pm[i] by {
                            assert(SpiderCanPinMode::spec_from_code(pm[i].spec_code()) == pm[i]);
                        }
                    },
                    _ => {},
                }
            }
            assert(sd =~~= m@);
        },
        GrappleSpiderCan::StatusAnalog { device_id, frame_number, pin_status } => {
            let qs = pin_status@;
            assert(d.data[0] == u16_le_bytes(qs[0])[0]);
            assert(d.data[1] == u16_le_bytes(qs[0])[1]);
            assert(d.data[2] == u16_le_bytes(qs[1])[0]);
            assert(d.data[3] == u16_le_bytes(qs[1])[1]);
            assert(d.data[4] == u16_le_bytes(qs[2])[0]);
            assert(d.data[5] == u16_le_bytes(qs[2])[1]);
            assert(d.data[6] == u16_le_bytes(qs[3])[0]);
            assert(d.data[7] == u16_le_bytes(qs[3])[1]);
            lemma_u16_le_recompose(qs[0]);
            lemma_u16_le_recompose(qs[1]);
            lemma_u16_le_recompose(qs[2]);
            lemma_u16_le_recompose(qs[3]);
            assert(le16_at(d.data, 0) == qs[0]);
            assert(le16_at(d.data, 2) == qs[1]);
            assert(le16_at(d.data, 4) == qs[2]);
            assert(le16_at(d.data, 6) == qs[3]);
            let dec = GrappleSpiderCan::spec_decode(d);
            assert(dec is Some);
            match dec->0 {
                GrappleSpiderCanV::StatusAnalog { pin_status: rs, .. } => {
                    assert(rs =~= qs);
                },
                _ => {},
            }
            assert(dec->0 =~~= m@);
        },
        GrappleSpiderCan::ConfigurePin { device_id, pin_id, mode } => {
            let c = mode.spec_code() as int;
            assert(d.data[1] == c);
            lemma_fundamental_div_mod_converse(c, 16, 0, c);
            assert(SpiderCanPinMode::spec_from_code(mode.spec_code()) == mode);
        },
        GrappleSpiderCan::SaveConfig { device_id } => {},
    }
}

/// Decoding any encoded vendor frame restores the message: the four device
/// families answer to disjoint identifier ranges.
pub proof fn lemma_grapple_frame_round_trip(m: Grapple)
    requires
        m.enc_wf(),
    ensures
        Grapple::spec_decode(m.spec_encode()) == Some(m@),
{
    match m {
        Grapple::DeviceInfo(i) => {
            lemma_device_info_frame_round_trip(i);
        },
        Grapple::Firmware(f) => {
            lemma_firmware_frame_round_trip(f);
        },
        Grapple::LaserCan(l) => {
            lemma_lasercan_frame_round_trip(l);
        },
        Grapple::SpiderCan(sc) => {
            lemma_spidercan_frame_round_trip(sc);
        },
    }
}

} // verus!
