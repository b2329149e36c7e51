use grapple_frc_msgs::grapple::device_info::GrappleDeviceInfo;
use grapple_frc_msgs::grapple::errors::GrappleError;
use grapple_frc_msgs::grapple::fragments::FragmentReassembler;
use grapple_frc_msgs::grapple::lasercan::{LaserCanMessage, LaserCanRoi, LaserCanRoiU4};
use grapple_frc_msgs::grapple::mitocandria::{
    MitocandriaChannelRequest, MitocandriaChannelStatus, MitocandriaMessage,
    MitocandriaStatusFrame, MitocandriaSwitchableChannelRequest,
};
use grapple_frc_msgs::grapple::{GrappleBroadcastMessage, GrappleDeviceMessage, Request};
use grapple_frc_msgs::Validate;

#[test]
fn odd_region_is_out_of_bounds() {
    let roi = LaserCanRoi {
        x: LaserCanRoiU4(8),
        y: LaserCanRoiU4(8),
        w: LaserCanRoiU4(3),
        h: LaserCanRoiU4(4),
    };
    match roi.validate() {
        Err(GrappleError::ParameterOutOfBounds(reason)) => {
            assert_eq!(reason, "LaserCanRoi: width and height must be even");
        },
        other => panic!("expected a parameter error, got {:?}", other),
    }
}

#[test]
fn region_past_the_grid_is_out_of_bounds() {
    let roi = LaserCanRoi {
        x: LaserCanRoiU4(2),
        y: LaserCanRoiU4(8),
        w: LaserCanRoiU4(8),
        h: LaserCanRoiU4(4),
    };
    match roi.validate() {
        Err(GrappleError::ParameterOutOfBounds(reason)) => {
            assert_eq!(reason, "LaserCanRoi: out of bounds");
        },
        other => panic!("expected a parameter error, got {:?}", other),
    }
}

#[test]
fn centred_even_region_is_accepted() {
    let roi = LaserCanRoi {
        x: LaserCanRoiU4(8),
        y: LaserCanRoiU4(7),
        w: LaserCanRoiU4(16),
        h: LaserCanRoiU4(4),
    };
    assert!(roi.validate().is_ok());
}

#[test]
fn led_threshold_range_is_enforced() {
    assert!(LaserCanMessage::SetLedThreshold(Request::Request(0)).validate().is_ok());
    assert!(LaserCanMessage::SetLedThreshold(Request::Request(21)).validate().is_ok());
    assert!(LaserCanMessage::SetLedThreshold(Request::Request(4000)).validate().is_ok());
    assert!(LaserCanMessage::SetLedThreshold(Request::Request(5)).validate().is_err());
    assert!(LaserCanMessage::SetLedThreshold(Request::Request(4001)).validate().is_err());
    assert!(LaserCanMessage::SetLedThreshold(Request::Ack(())).validate().is_ok());
}

#[test]
fn transmitter_refuses_an_invalid_message() {
    let bad = GrappleDeviceMessage::DistanceSensor(LaserCanMessage::SetRoi(Request::Request(
        LaserCanRoi {
            x: LaserCanRoiU4(1),
            y: LaserCanRoiU4(8),
            w: LaserCanRoiU4(8),
            h: LaserCanRoiU4(4),
        },
    )));
    let (_, mut tx) = FragmentReassembler::new(200, 8).split();
    match tx.maybe_fragment(3, &bad) {
        Err(GrappleError::ParameterOutOfBounds(_)) => {},
        other => panic!("expected the transmitter to refuse, got {:?}", other),
    }
}

#[test]
fn transmitter_refuses_an_oversize_name() {
    let long = GrappleDeviceMessage::Broadcast(GrappleBroadcastMessage::DeviceInfo(
        GrappleDeviceInfo::SetName { serial: 1, name: vec![b'x'; 300] },
    ));
    let (_, mut tx) = FragmentReassembler::new(200, 8).split();
    assert!(tx.maybe_fragment(3, &long).is_err());
}

#[test]
fn power_channel_requests_round_trip_through_the_transmitter() {
    let msg = GrappleDeviceMessage::PowerDistributionModule(MitocandriaMessage::ChannelRequest(
        MitocandriaChannelRequest::SetSwitchableChannel(Request::Request(
            MitocandriaSwitchableChannelRequest { channel: 2, enabled: true },
        )),
    ));
    let (_, mut tx) = FragmentReassembler::new(200, 8).split();
    let frames = tx.maybe_fragment(4, &msg).unwrap();
    assert_eq!(frames.len(), 1);
    assert_eq!(frames[0].id.device_type, 8);
    assert_eq!(frames[0].data, vec![2, 1]);
}

#[test]
fn power_status_frame_always_fragments() {
    let channels = vec![
        MitocandriaChannelStatus::Switchable { enabled: true, current: 1200 },
        MitocandriaChannelStatus::NonSwitchable { current: 340 },
        MitocandriaChannelStatus::Adjustable {
            enabled: false,
            voltage: 5000,
            voltage_setpoint: 5100,
            current: 0,
        },
        MitocandriaChannelStatus::NonSwitchable { current: 1 },
        MitocandriaChannelStatus::Switchable { enabled: false, current: 0 },
    ];
    let msg = GrappleDeviceMessage::PowerDistributionModule(MitocandriaMessage::StatusFrame(
        MitocandriaStatusFrame { channels },
    ));
    let (_, mut tx) = FragmentReassembler::new(200, 8).split();
    let frames = tx.maybe_fragment(4, &msg).unwrap();
    // Five fixed eight-byte channel records: a 40-byte body needs one
    // Start frame of five body bytes plus five continuations.
    assert_eq!(frames.len(), 6);
}
