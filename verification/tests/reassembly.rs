use grapple_frc_msgs::bits::BitReader;
use grapple_frc_msgs::grapple::device_info::GrappleDeviceInfo;
use grapple_frc_msgs::grapple::firmware::{GrappleFirmwareMessage, UpdatePartV2Payload};
use grapple_frc_msgs::grapple::fragments::{FragmentReassembler, TxFrame};
use grapple_frc_msgs::grapple::{
    GrappleBroadcastMessage, GrappleDeviceMessage, GrappleMessageId, MaybeFragment, Request,
};
use grapple_frc_msgs::{MessageId, DEVICE_ID_BROADCAST};

fn set_name(name: &str) -> GrappleDeviceMessage {
    GrappleDeviceMessage::Broadcast(GrappleBroadcastMessage::DeviceInfo(
        GrappleDeviceInfo::SetName { serial: 0xDEADBEEF, name: name.as_bytes().to_vec() },
    ))
}

fn deliver(
    rx: &mut grapple_frc_msgs::grapple::fragments::FragmentReassemblerRx,
    now: i64,
    frame: &TxFrame,
) -> Option<GrappleDeviceMessage> {
    let gid = GrappleMessageId::from_message_id(&frame.id);
    let mut reader = BitReader::new(frame.data.clone());
    let msg = MaybeFragment::read(&mut reader, gid).expect("frame must parse");
    rx.defragment(now, &frame.id, msg).expect("reassembly must not fail")
}

#[test]
fn test_reassemble() {
    let msg = set_name("Some Really Really Long Name");
    let reassembler = FragmentReassembler::new(200, 8);
    let (mut rx, mut tx) = reassembler.split();

    let frames = tx.maybe_fragment(DEVICE_ID_BROADCAST, &msg).unwrap();
    assert!(frames.len() > 1);
    // Deliver the frames out of order; the slots are indexed, so the
    // reassembled stream still reflects index order.
    let order: Vec<usize> = vec![2, 0, 4, 1, 3];
    assert_eq!(order.len(), frames.len());
    let mut out = None;
    for i in order {
        out = deliver(&mut rx, 0, &frames[i]);
    }
    assert_eq!(out, Some(msg));

    // A second message on the same stream: the first record was removed at
    // completion, so this reassembles freshly.
    let msg2 = set_name("Something Else");
    let reassembler2 = FragmentReassembler::new(200, 8);
    let (_, mut tx2) = reassembler2.split();
    let frames2 = tx2.maybe_fragment(DEVICE_ID_BROADCAST, &msg2).unwrap();
    let order2: Vec<usize> = vec![1, 2, 0];
    assert_eq!(order2.len(), frames2.len());
    let mut out2 = None;
    for i in order2 {
        out2 = deliver(&mut rx, 0, &frames2[i]);
    }
    assert_eq!(out2, Some(msg2));
}

#[test]
fn single_frame_message_passes_straight_through() {
    let msg = GrappleDeviceMessage::Broadcast(GrappleBroadcastMessage::DeviceInfo(
        GrappleDeviceInfo::EnumerateRequest,
    ));
    let (mut rx, mut tx) = FragmentReassembler::new(200, 8).split();
    let frames = tx.maybe_fragment(DEVICE_ID_BROADCAST, &msg).unwrap();
    assert_eq!(frames.len(), 1);
    assert_eq!(
        frames[0].id,
        MessageId { device_type: 0, manufacturer: 6, api_class: 0, api_index: 0, device_id: 0x3F }
    );
    assert_eq!(frames[0].data.len(), 0);
    let out = deliver(&mut rx, 0, &frames[0]);
    assert_eq!(out, Some(msg));
}

#[test]
fn fragment_frames_have_expected_shape() {
    // Body: 4 serial bytes, 1 length byte, 28 name bytes = 33 bytes, so
    // one Start frame with 5 body bytes and four continuations of 8.
    let msg = set_name("Some Really Really Long Name");
    let (_, mut tx) = FragmentReassembler::new(200, 8).split();
    let frames = tx.maybe_fragment(0x3F, &msg).unwrap();
    assert_eq!(frames.len(), 5);
    // Start frame: fragment bit raised, sequence zero, three-byte header
    // carrying the original class, index and total length.
    assert_eq!(frames[0].id.api_class, 0x20 | 1);
    assert_eq!(frames[0].id.api_index, 0);
    assert_eq!(frames[0].data[0], 0x00);
    assert_eq!(frames[0].data[1], 3);
    assert_eq!(frames[0].data[2], 33);
    assert_eq!(frames[0].data.len(), 8);
    for (i, frame) in frames.iter().enumerate().skip(1) {
        assert_eq!(frame.id.api_index as usize, i);
        assert_eq!(frame.id.api_class, 0x20 | 1);
    }
    assert_eq!(frames[4].data.len(), 33 - 5 - 3 * 8);
}

#[test]
fn age_off_evicts_an_unfinished_stream() {
    // A 16-byte name gives a 21-byte body: exactly three frames.
    let msg = set_name("0123456789abcdef");
    let (mut rx, mut tx) = FragmentReassembler::new(200, 8).split();
    let frames = tx.maybe_fragment(DEVICE_ID_BROADCAST, &msg).unwrap();
    assert_eq!(frames.len(), 3);
    assert_eq!(deliver(&mut rx, 0, &frames[0]), None);
    assert_eq!(deliver(&mut rx, 0, &frames[1]), None);
    // The clock moves past the age-off window: the record is evicted, and
    // the final continuation opens a fresh, headerless record instead of
    // completing the old one.
    assert_eq!(deliver(&mut rx, 201, &frames[2]), None);
}

#[test]
fn duplicate_fragment_overwrites_without_duplicate_output() {
    let msg = set_name("0123456789abcdef");
    let (mut rx, mut tx) = FragmentReassembler::new(200, 8).split();
    let frames = tx.maybe_fragment(DEVICE_ID_BROADCAST, &msg).unwrap();
    assert_eq!(frames.len(), 3);
    assert_eq!(deliver(&mut rx, 0, &frames[0]), None);
    assert_eq!(deliver(&mut rx, 0, &frames[1]), None);
    assert_eq!(deliver(&mut rx, 0, &frames[1]), None);
    assert_eq!(deliver(&mut rx, 0, &frames[2]), Some(msg));
}

#[test]
fn second_stream_reuses_fragment_id_after_completion() {
    // Two oversize messages through the same transmitter use fragment ids
    // 1 and 2; a fresh transmitter starts over at 1, exercising reuse of a
    // fragment id the receiver has already seen complete.
    let msg = set_name("Some Really Really Long Name");
    let (mut rx, mut tx) = FragmentReassembler::new(200, 8).split();
    let frames = tx.maybe_fragment(DEVICE_ID_BROADCAST, &msg).unwrap();
    for frame in &frames {
        deliver(&mut rx, 0, frame);
    }
    let (_, mut tx2) = FragmentReassembler::new(200, 8).split();
    let msg2 = set_name("Something Else");
    let frames2 = tx2.maybe_fragment(DEVICE_ID_BROADCAST, &msg2).unwrap();
    assert_eq!(frames2[0].id.api_class, frames[0].id.api_class);
    let mut out = None;
    for frame in &frames2 {
        out = deliver(&mut rx, 0, frame);
    }
    assert_eq!(out, Some(msg2));
}

#[test]
fn fragmented_firmware_chunk_round_trip() {
    let msg = GrappleDeviceMessage::FirmwareUpdate(GrappleFirmwareMessage::UpdatePartV2(
        Request::Request(UpdatePartV2Payload { offset: 0x1000, payload: (0..32u8).collect() }),
    ));
    let (mut rx, mut tx) = FragmentReassembler::new(200, 8).split();
    let frames = tx.maybe_fragment(7, &msg).unwrap();
    assert!(frames.len() > 1);
    let mut out = None;
    for frame in frames.iter().rev() {
        out = deliver(&mut rx, 0, frame);
    }
    assert_eq!(out, Some(msg));
}

#[test]
fn frame_count_matches_the_splitting_formula() {
    // With a capacity of eight, a Start frame carries five body bytes and
    // each continuation eight more.
    for name_len in [4usize, 11, 12, 27] {
        let name: String = "n".repeat(name_len);
        let msg = set_name(&name);
        let body_len = 4 + 1 + name_len;
        let (_, mut tx) = FragmentReassembler::new(200, 8).split();
        let frames = tx.maybe_fragment(1, &msg).unwrap();
        if body_len <= 8 {
            assert_eq!(frames.len(), 1);
        } else {
            assert_eq!(frames.len(), 1 + (body_len - 5).div_ceil(8));
            let carried: usize = frames.iter().map(|f| f.data.len()).sum();
            assert_eq!(carried, body_len + 3);
        }
    }
}

#[test]
fn restarted_stream_drops_chunks_of_the_old_attempt() {
    // Two three-frame streams on the same fragment id and key.  The sender
    // abandons the first after its Start and one continuation, then
    // restarts: the second Start must clear the stale chunk, so nothing
    // completes until the restarted stream is itself whole.
    let old_msg = set_name("0123456789abcdef");
    let new_msg = set_name("fedcba9876543210");
    let (mut rx, mut tx_old) = FragmentReassembler::new(200, 8).split();
    let (_, mut tx_new) = FragmentReassembler::new(200, 8).split();
    let old_frames = tx_old.maybe_fragment(DEVICE_ID_BROADCAST, &old_msg).unwrap();
    let new_frames = tx_new.maybe_fragment(DEVICE_ID_BROADCAST, &new_msg).unwrap();
    assert_eq!(old_frames[0].id, new_frames[0].id);
    assert_eq!(deliver(&mut rx, 0, &old_frames[0]), None);
    assert_eq!(deliver(&mut rx, 0, &old_frames[1]), None);
    assert_eq!(deliver(&mut rx, 0, &new_frames[0]), None);
    assert_eq!(deliver(&mut rx, 0, &new_frames[2]), None);
    assert_eq!(deliver(&mut rx, 0, &new_frames[1]), Some(new_msg));
}

#[test]
fn delivery_survives_clock_advances_inside_the_window() {
    // Frames arrive out of order while the clock creeps forward, each gap
    // under the age-off window: the record is refreshed on every frame and
    // the message still comes out exactly once.
    let msg = set_name("Some Really Really Long Name");
    let (mut rx, mut tx) = FragmentReassembler::new(200, 8).split();
    let frames = tx.maybe_fragment(DEVICE_ID_BROADCAST, &msg).unwrap();
    let order: Vec<usize> = vec![4, 1, 0, 3, 2];
    assert_eq!(order.len(), frames.len());
    let mut now: i64 = 10;
    let mut outputs = Vec::new();
    for i in order {
        outputs.push(deliver(&mut rx, now, &frames[i]));
        now += 199;
    }
    assert_eq!(outputs, vec![None, None, None, None, Some(msg)]);
}
