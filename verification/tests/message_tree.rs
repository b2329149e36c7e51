use grapple_frc_msgs::bits::{BitReader, BitWriter, MarshalError};
use grapple_frc_msgs::grapple::device_info::GrappleDeviceInfo;
use grapple_frc_msgs::grapple::lasercan::{
    LaserCanMeasurement, LaserCanMessage, LaserCanRangingMode, LaserCanRoi, LaserCanRoiU4,
    LaserCanTimingBudget,
};
use grapple_frc_msgs::grapple::{
    GrappleBroadcastMessage, GrappleDeviceMessage, GrappleMessageId, MaybeFragment, Request,
};
use grapple_frc_msgs::ni::{NiDeviceMessage, NiRioHearbeat1, NiRioHeartbeat, NiRobotControllerMessage};
use grapple_frc_msgs::{ManufacturerMessage, Message, MessageId, DEVICE_ID_BROADCAST};

fn encode_message(m: &Message) -> Vec<u8> {
    let mut w = BitWriter::new();
    m.msg.write(&mut w);
    w.finish()
}

fn decode_message(id: MessageId, bytes: Vec<u8>) -> Result<ManufacturerMessage, MarshalError> {
    let mut r = BitReader::new(bytes);
    ManufacturerMessage::read(&mut r, id)
}

#[test]
fn enumerate_request_round_trip() {
    let msg = Message::new(
        DEVICE_ID_BROADCAST,
        ManufacturerMessage::Grapple(MaybeFragment::Message(GrappleDeviceMessage::Broadcast(
            GrappleBroadcastMessage::DeviceInfo(GrappleDeviceInfo::EnumerateRequest),
        ))),
    );
    assert_eq!(
        msg.id,
        MessageId { device_type: 0, manufacturer: 6, api_class: 0, api_index: 0, device_id: 0x3F }
    );
    let bytes = encode_message(&msg);
    assert_eq!(bytes.len(), 0);
    let back = decode_message(msg.id, bytes).unwrap();
    assert_eq!(back, msg.msg);
}

#[test]
fn identifier_round_trips_through_u32() {
    let id = MessageId { device_type: 6, manufacturer: 6, api_class: 0x11, api_index: 3, device_id: 9 };
    assert_eq!(MessageId::from_u32(id.to_u32()), id);
    assert_eq!(MessageId::from_u32(0x1234_5678).to_u32(), 0x1234_5678 % 0x2000_0000);
    let gid = GrappleMessageId::from_message_id(&id);
    assert!(gid.ack_flag);
    assert!(!gid.fragment_flag);
    assert_eq!(gid.api_class, 1);
    assert_eq!(gid.to_message_id(), id);
    let frag = MessageId { device_type: 6, manufacturer: 6, api_class: 0x21, api_index: 1, device_id: 9 };
    let fgid = GrappleMessageId::from_message_id(&frag);
    assert!(fgid.fragment_flag);
    assert!(!fgid.ack_flag);
    assert_eq!(fgid.api_class, 1);
    assert_eq!(fgid.to_message_id(), frag);
}

#[test]
fn measurement_status_round_trip() {
    let m = LaserCanMessage::Measurement(LaserCanMeasurement {
        status: 2,
        distance_mm: 0x1234,
        ambient: 0x4567,
        mode: LaserCanRangingMode::Long,
        budget: LaserCanTimingBudget::TB33ms,
        roi: LaserCanRoi {
            x: LaserCanRoiU4(8),
            y: LaserCanRoiU4(7),
            w: LaserCanRoiU4(16),
            h: LaserCanRoiU4(4),
        },
    });
    let msg = Message::new(
        5,
        ManufacturerMessage::Grapple(MaybeFragment::Message(GrappleDeviceMessage::DistanceSensor(
            m,
        ))),
    );
    assert_eq!(
        msg.id,
        MessageId { device_type: 6, manufacturer: 6, api_class: 0, api_index: 0, device_id: 5 }
    );
    let bytes = encode_message(&msg);
    // status, distance little-endian, ambient little-endian, mode and
    // budget packed, centre nibbles, extent nibbles offset by four.
    assert_eq!(bytes, vec![0x02, 0x34, 0x12, 0x67, 0x45, 128 + 33, 0x87, 0xC0]);
    let back = decode_message(msg.id, bytes).unwrap();
    assert_eq!(back, msg.msg);
}

#[test]
fn set_roi_request_and_ack_discriminate_on_the_ack_bit() {
    let roi = LaserCanRoi {
        x: LaserCanRoiU4(8),
        y: LaserCanRoiU4(8),
        w: LaserCanRoiU4(4),
        h: LaserCanRoiU4(4),
    };
    let req = Message::new(
        5,
        ManufacturerMessage::Grapple(MaybeFragment::Message(GrappleDeviceMessage::DistanceSensor(
            LaserCanMessage::SetRoi(Request::Request(roi)),
        ))),
    );
    // Request shape: ack bit clear, two nibble-packed region bytes.
    assert_eq!(req.id.api_class, 2);
    let req_bytes = encode_message(&req);
    assert_eq!(req_bytes, vec![0x77, 0x33]);
    assert_eq!(decode_message(req.id, req_bytes).unwrap(), req.msg);

    let ack = Message::new(
        5,
        ManufacturerMessage::Grapple(MaybeFragment::Message(GrappleDeviceMessage::DistanceSensor(
            LaserCanMessage::SetRoi(Request::Ack(())),
        ))),
    );
    // Ack shape: ack bit set (bit four of the packed class), empty body.
    assert_eq!(ack.id.api_class, 2 | 16);
    let ack_bytes = encode_message(&ack);
    assert_eq!(ack_bytes.len(), 0);
    assert_eq!(decode_message(ack.id, ack_bytes).unwrap(), ack.msg);
}

#[test]
fn heartbeat_round_trip() {
    let hb = NiDeviceMessage::RobotController(NiRobotControllerMessage::Heartbeat(
        NiRioHeartbeat::Hearbeat(NiRioHearbeat1 {
            reserved1: 0,
            reserved2: 0,
            reserved3: 0,
            reserved4: 0,
            reserved5: 5,
            watchdog_enabled: true,
            test: false,
            autonomous: true,
            enabled: true,
            red_alliance: false,
            reserved6: 0,
            reserved7: 0,
            reserved8: 0,
        }),
    ));
    let msg = Message::new(2, ManufacturerMessage::Ni(hb));
    assert_eq!(
        msg.id,
        MessageId { device_type: 1, manufacturer: 1, api_class: 6, api_index: 2, device_id: 2 }
    );
    let bytes = encode_message(&msg);
    assert_eq!(bytes, vec![0, 0, 0, 0, 5 * 32 + 16 + 4 + 2, 0, 0, 0]);
    let back = decode_message(msg.id, bytes).unwrap();
    assert_eq!(back, msg.msg);
}

#[test]
fn set_name_round_trip_with_long_name() {
    let msg = Message::new(
        DEVICE_ID_BROADCAST,
        ManufacturerMessage::Grapple(MaybeFragment::Message(GrappleDeviceMessage::Broadcast(
            GrappleBroadcastMessage::DeviceInfo(GrappleDeviceInfo::SetName {
                serial: 0xDEADBEEF,
                name: "Some Really Really Long Name".as_bytes().to_vec(),
            }),
        ))),
    );
    assert_eq!(msg.id.api_index, 3);
    let bytes = encode_message(&msg);
    assert_eq!(bytes.len(), 4 + 1 + 28);
    assert_eq!(&bytes[0..4], &[0xDE, 0xAD, 0xBE, 0xEF]);
    assert_eq!(bytes[4], 28);
    let back = decode_message(msg.id, bytes).unwrap();
    assert_eq!(back, msg.msg);
}

#[test]
fn unknown_identifier_is_no_match() {
    let id = MessageId { device_type: 2, manufacturer: 9, api_class: 0, api_index: 0, device_id: 1 };
    assert_eq!(decode_message(id, vec![1, 2, 3]), Err(MarshalError::NoMatch));
}

#[test]
fn truncated_body_exhausts_the_buffer() {
    // A set-id body needs five bytes; hand it three.
    let id = MessageId { device_type: 0, manufacturer: 6, api_class: 0, api_index: 5, device_id: 3 };
    assert_eq!(decode_message(id, vec![1, 2, 3]), Err(MarshalError::BufferExhausted));
}
