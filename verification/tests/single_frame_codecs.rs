use grapple_frc_msgs::frc::grapple::{
    Grapple, GrappleDeviceInfo, GrappleFirmware, GrappleLaserCan, GrappleLaserCanRoi,
    GrappleModelId, GrappleSpiderCan, SpiderCanOutputMode, SpiderCanPinMode, SpiderCanPull,
};
use grapple_frc_msgs::can::{CANId, UnparsedCANMessage};
use grapple_frc_msgs::frc::ni::Ni;
use grapple_frc_msgs::frc::{CanMessage, FrcCanData, FrcCanDecodable, FrcCanEncodable, FrcCanId};
use grapple_frc_msgs::grapple::errors::GrappleError;

fn assert_encode_decode(data: Grapple) {
    assert_eq!(Some(data.clone()), Grapple::decode(&data.encode()));
}

#[test]
fn test_device_info() {
    assert_encode_decode(Grapple::DeviceInfo(GrappleDeviceInfo::EnumerateRequest));
    assert_encode_decode(Grapple::DeviceInfo(GrappleDeviceInfo::EnumerateResponse {
        device_id: 0x02,
        model_id: GrappleModelId::LaserCan,
        firmware_version: (1, 2, 0),
        serial: 0xDEADBEEF,
    }));
    assert_encode_decode(Grapple::DeviceInfo(GrappleDeviceInfo::SetId {
        device_id: 0x02,
        serial: 0xDEADBEEF,
    }));
    assert_encode_decode(Grapple::DeviceInfo(GrappleDeviceInfo::Blink { serial: 0xDEADBEEF }));
}

#[test]
fn test_firmware() {
    assert_encode_decode(Grapple::Firmware(GrappleFirmware::UpdateRequest { serial: 0xDEADBEEF }));
    assert_encode_decode(Grapple::Firmware(GrappleFirmware::UpdateReady {
        serial: 0xDEADBEEF,
        model_id: GrappleModelId::SpiderCan,
    }));
    assert_encode_decode(Grapple::Firmware(GrappleFirmware::UpdatePart {
        serial: 0xDEADBEEF,
        data: (0, 1, 2, 0),
        len: 3,
    }));
    assert_encode_decode(Grapple::Firmware(GrappleFirmware::UpdatePartAck {
        serial: 0xDEADBEEF,
    }));
    assert_encode_decode(Grapple::Firmware(GrappleFirmware::UpdateDone { serial: 0xDEADBEEF }));
}

#[test]
fn test_lasercan() {
    assert_encode_decode(Grapple::LaserCan(GrappleLaserCan::Status {
        device_id: 0x01,
        status: 0x02,
        distance_mm: 0x1234,
        ambient: 0x4567,
        long: true,
        budget_ms: 34,
        roi: GrappleLaserCanRoi { x: 8, y: 7, w: 16, h: 4 },
    }));
    assert_encode_decode(Grapple::LaserCan(GrappleLaserCan::SetRange {
        device_id: 0x02,
        long: true,
    }));
    assert_encode_decode(Grapple::LaserCan(GrappleLaserCan::SetRoi {
        device_id: 0x02,
        roi: GrappleLaserCanRoi { x: 1, y: 2, w: 3, h: 4 },
    }));
    assert_encode_decode(Grapple::LaserCan(GrappleLaserCan::SetTimingBudget {
        device_id: 0x02,
        budget_ms: 100,
    }));
}

#[test]
fn test_spidercan() {
    assert_encode_decode(Grapple::SpiderCan(GrappleSpiderCan::ConfigurePin {
        device_id: 0x01,
        pin_id: 0x10,
        mode: SpiderCanPinMode::DigitalOut(SpiderCanOutputMode::OpenDrain),
    }));
    assert_encode_decode(Grapple::SpiderCan(GrappleSpiderCan::StatusAnalog {
        device_id: 0x02,
        frame_number: 0x01,
        pin_status: vec![100, 200, 300, 400],
    }));
    assert_encode_decode(Grapple::SpiderCan(GrappleSpiderCan::StatusDigital {
        device_id: 0x03,
        pin_status: vec![true, true, false, false, true, false, false, true],
        pin_modes: vec![
            SpiderCanPinMode::Analog,
            SpiderCanPinMode::DigitalIn(SpiderCanPull::NoPull),
            SpiderCanPinMode::DigitalIn(SpiderCanPull::PullDown),
            SpiderCanPinMode::DigitalIn(SpiderCanPull::PullUp),
            SpiderCanPinMode::DigitalOut(SpiderCanOutputMode::OpenDrain),
            SpiderCanPinMode::DigitalOut(SpiderCanOutputMode::PushPull),
            SpiderCanPinMode::Analog,
            SpiderCanPinMode::Analog,
        ],
    }));
}

#[test]
fn frc_id_packs_to_expected_value() {
    let id = FrcCanId::new(6, 6, 0x20, 0, 5);
    assert_eq!(id.to_u32(), 0x0606_8005);
    assert_eq!(FrcCanId::from_u32(0x0606_8005), id);
}

#[test]
fn enumerate_request_targets_every_device() {
    let frame = GrappleDeviceInfo::EnumerateRequest.encode();
    assert_eq!(frame.id.device_type, 0);
    assert_eq!(frame.id.manufacturer, 6);
    assert_eq!(frame.id.api_class, 0);
    assert_eq!(frame.id.api_index, 0);
    assert_eq!(frame.id.device_id, 0x3F);
    assert_eq!(frame.len, 0);
}

#[test]
fn ni_heartbeat_frame_is_recognised() {
    let frame = FrcCanData {
        id: FrcCanId::new(0x01, 0x01, 0x06, 0x02, 0x00),
        data: vec![0; 8],
        len: 8,
    };
    assert!(matches!(CanMessage::decode(&frame), Some(CanMessage::Ni(Ni::RioHeartbeat))));
    let vendor = GrappleDeviceInfo::EnumerateRequest.encode();
    assert!(matches!(CanMessage::decode(&vendor), Some(CanMessage::Grapple(_))));
}

#[test]
fn raw_frames_keep_their_identifier_and_padding() {
    let raw = UnparsedCANMessage::new(0x0606_8005, &[1, 2, 3]);
    assert_eq!(raw.id, CANId::from_u32(0x0606_8005));
    assert_eq!(raw.id.device_type, 6);
    assert_eq!(raw.id.api_class, 0x20);
    assert_eq!(raw.len, 3);
    assert_eq!(raw.payload, vec![1, 2, 3, 0, 0, 0, 0, 0]);
    assert_eq!(raw.id.to_u32(), 0x0606_8005);
}

#[test]
fn error_classes_carry_their_wire_codes() {
    assert_eq!(GrappleError::ParameterOutOfBounds("p".to_owned()).to_error_code(), 0x00);
    assert_eq!(GrappleError::FailedAssertion("f".to_owned()).to_error_code(), 0x01);
    assert_eq!(GrappleError::TimedOut("t".to_owned()).to_error_code(), 0xFE);
    assert_eq!(GrappleError::Generic("g".to_owned()).to_error_code(), 0xFF);
    assert_eq!(GrappleError::TimedOut("t".to_owned()).reason(), "t");
}

#[test]
fn measurement_status_frame_has_the_status_identifier() {
    let frame = GrappleLaserCan::Status {
        device_id: 0x04,
        status: 2,
        distance_mm: 0x1234,
        ambient: 0x4567,
        long: true,
        budget_ms: 33,
        roi: GrappleLaserCanRoi { x: 8, y: 7, w: 16, h: 4 },
    }
    .encode();
    assert_eq!(frame.id, FrcCanId::new(6, 6, 0, 0, 4));
    assert_eq!(frame.len, 8);
    assert_eq!(frame.data, vec![0x02, 0x34, 0x12, 0x67, 0x45, 0xA1, 0x87, 0xC0]);
}
