//! Wire protocol for a family of smart CAN-bus devices.
//!
//! The protocol layers a 29-bit arbitration identifier scheme over classic
//! CAN 2.0B frames.  The identifier selects the message variant (manufacturer,
//! then device type, API class and API index); payload bodies carry no in-band
//! tag.  A fragmentation sublayer splits payloads of up to 253 bytes across
//! 8-byte frames and reassembles them on receive, and one identifier bit
//! discriminates request payloads from acknowledgement payloads.

pub mod bits;
pub mod can;
pub mod frc;
pub mod grapple;
pub mod ni;

use vstd::prelude::*;

verus! {

use crate::bits::{BitReader, BitWriter, MarshalError};
use crate::grapple::{GrappleMessageId, MaybeFragment, MaybeFragmentV, MANUFACTURER_GRAPPLE};
use crate::grapple::errors::{GrappleError, GrappleErrorV};
use crate::ni::{NiDeviceMessage, MANUFACTURER_NI};

/// The view of a codec result: `Ok` values are taken to their views, errors
/// carried across unchanged.
pub open spec fn res_view<T: View, E>(r: Result<T, E>) -> Result<T::V, E> {
    match r {
        Ok(t) => Ok(t@),
        Err(e) => Err(e),
    }
}

/// Device type of broadcast (device-info) messages.
pub const DEVICE_TYPE_BROADCAST: u8 = 0x00;

/// Device type of the firmware upgrade channel.
pub const DEVICE_TYPE_FIRMWARE_UPGRADE: u8 = 31;

/// Device id that addresses every device on the bus.
pub const DEVICE_ID_BROADCAST: u8 = 0x3F;

/// Value-range and cross-field checks, run before a message is transmitted.
pub trait Validate {
    /// The verdict of validation, as a mathematical function of the value.
    spec fn spec_validate(&self) -> Result<(), crate::grapple::errors::GrappleErrorV>;

    /// Check the value; `Ok` exactly when the model says so.
    fn validate(&self) -> (r: Result<(), crate::grapple::errors::GrappleError>)
        ensures
            crate::grapple::errors::err_view(r) == self.spec_validate(),
    ;
}

/// The five fields of the 29-bit arbitration identifier, high to low:
/// `device_type` (5 bits), `manufacturer` (8), `api_class` (6),
/// `api_index` (4), `device_id` (6).
#[derive(Debug, Clone, Copy, PartialEq, Eq, Structural)]
pub struct MessageId {
    pub device_type: u8,
    pub manufacturer: u8,
    pub api_class: u8,
    pub api_index: u8,
    pub device_id: u8,
}

impl MessageId {
    /// Every field fits its bit width.
    pub open spec fn wf(self) -> bool {
        self.device_type < 32 && self.api_class < 64 && self.api_index < 16 && self.device_id < 64
    }

    /// The packed 29-bit identifier.  Fields beyond their width are masked.
    pub open spec fn spec_to_u32(self) -> u32 {
        (((self.device_type % 32) as u32) * 0x1000000 + ((self.manufacturer as u32) * 0x10000)
            + (((self.api_class % 64) as u32) * 0x400) + (((self.api_index % 16) as u32) * 0x40)
            + ((self.device_id % 64) as u32)) as u32
    }

    /// The five fields unpacked from a 29-bit identifier.
    pub open spec fn spec_from_u32(value: u32) -> MessageId {
        MessageId {
            device_type: (((value / 0x1000000) % 32) as u8),
            manufacturer: (((value / 0x10000) % 256) as u8),
            api_class: (((value / 0x400) % 64) as u8),
            api_index: (((value / 0x40) % 16) as u8),
            device_id: ((value % 64) as u8),
        }
    }

    /// Pack the identifier into its 29-bit wire form.
    pub fn to_u32(&self) -> (r: u32)
        ensures
            r == self.spec_to_u32(),
            r < 0x20000000,
    {
        proof {
            let dt = self.device_type;
            let m = self.manufacturer;
            let ac = self.api_class;
            let ai = self.api_index;
            let di = self.device_id;
            assert(((dt % 32) as u32) * 0x1000000 + (m as u32) * 0x10000 + ((ac % 64) as u32)
                * 0x400 + ((ai % 16) as u32) * 0x40 + ((di % 64) as u32) < 0x20000000)
                by (bit_vector);
        }
        ((self.device_type % 32) as u32) * 0x1000000 + (self.manufacturer as u32) * 0x10000 + ((
        self.api_class % 64) as u32) * 0x400 + ((self.api_index % 16) as u32) * 0x40 + ((
        self.device_id % 64) as u32)
    }

    /// Unpack a 29-bit identifier into its five fields.
    pub fn from_u32(value: u32) -> (r: MessageId)
        ensures
            r == MessageId::spec_from_u32(value),
            r.wf(),
    {
        MessageId {
            device_type: ((value / 0x1000000) % 32) as u8,
            manufacturer: ((value / 0x10000) % 256) as u8,
            api_class: ((value / 0x400) % 64) as u8,
            api_index: ((value / 0x40) % 16) as u8,
            device_id: (value % 64) as u8,
        }
    }
}

/// Unpacking a packed identifier restores every field that fits its width.
pub proof fn lemma_message_id_round_trip(id: MessageId)
    requires
        id.wf(),
    ensures
        MessageId::spec_from_u32(id.spec_to_u32()) == id,
{
    let dt = id.device_type;
    let m = id.manufacturer;
    let ac = id.api_class;
    let ai = id.api_index;
    let di = id.device_id;
    let v = id.spec_to_u32();
    assert({
        let x = ((dt % 32) as u32) * 0x1000000 + (m as u32) * 0x10000 + ((ac % 64) as u32) * 0x400
            + ((ai % 16) as u32) * 0x40 + ((di % 64) as u32);
        &&& ((x / 0x1000000) % 32) == dt % 32
        &&& ((x / 0x10000) % 256) == m
        &&& ((x / 0x400) % 64) == ac % 64
        &&& ((x / 0x40) % 16) == ai % 16
        &&& (x % 64) == di % 64
    }) by (bit_vector);
}

/// Packing an unpacked identifier restores every 29-bit value.
pub proof fn lemma_u32_round_trip(value: u32)
    requires
        value < 0x20000000,
    ensures
        MessageId::spec_from_u32(value).spec_to_u32() == value,
{
    assert({
        let dt = ((value / 0x1000000) % 32) as u8;
        let m = ((value / 0x10000) % 256) as u8;
        let ac = ((value / 0x400) % 64) as u8;
        let ai = ((value / 0x40) % 16) as u8;
        let di = (value % 64) as u8;
        ((dt % 32) as u32) * 0x1000000 + (m as u32) * 0x10000 + ((ac % 64) as u32) * 0x400 + ((ai
            % 16) as u32) * 0x40 + ((di % 64) as u32) == value
    }) by (bit_vector)
        requires
            value < 0x20000000,
    ;
}

/// A top-level message: the manufacturer family selected by the
/// identifier's `manufacturer` field.
#[derive(Debug, Clone, PartialEq, Eq)]
pub enum ManufacturerMessage {
    Ni(NiDeviceMessage),
    Grapple(MaybeFragment),
}

/// The mathematical model of [`ManufacturerMessage`].
pub enum ManufacturerMessageV {
    Ni(NiDeviceMessage),
    Grapple(MaybeFragmentV),
}

impl View for ManufacturerMessage {
    type V = ManufacturerMessageV;

    open spec fn view(&self) -> ManufacturerMessageV {
        match self {
            ManufacturerMessage::Ni(m) => ManufacturerMessageV::Ni(*m),
            ManufacturerMessage::Grapple(m) => ManufacturerMessageV::Grapple(m@),
        }
    }
}

impl ManufacturerMessageV {
    pub open spec fn wf(self) -> bool {
        match self {
            ManufacturerMessageV::Ni(m) => m.wf(),
            ManufacturerMessageV::Grapple(m) => m.wf(),
        }
    }

    /// The manufacturer code lands in the identifier; the vendor subtree
    /// works on the projected vendor view and folds it back.
    pub open spec fn spec_update(self, id: MessageId) -> MessageId {
        match self {
            ManufacturerMessageV::Ni(m) => m.spec_update(
                MessageId { manufacturer: MANUFACTURER_NI, ..id },
            ),
            ManufacturerMessageV::Grapple(m) => m.spec_update(
                GrappleMessageId::spec_from_message_id(
                    MessageId { manufacturer: MANUFACTURER_GRAPPLE, ..id },
                ),
            ).spec_to_message_id(),
        }
    }

    pub open spec fn spec_bytes(self) -> Seq<u8> {
        match self {
            ManufacturerMessageV::Ni(m) => m.spec_bytes(),
            ManufacturerMessageV::Grapple(m) => m.spec_bytes(),
        }
    }

    pub open spec fn spec_read(b: Seq<u8>, id: MessageId) -> Result<
        ManufacturerMessageV,
        MarshalError,
    > {
        if id.manufacturer == MANUFACTURER_NI {
            match NiDeviceMessage::spec_read(b, id) {
                Ok(m) => Ok(ManufacturerMessageV::Ni(m)),
                Err(e) => Err(e),
            }
        } else if id.manufacturer == MANUFACTURER_GRAPPLE {
            match MaybeFragmentV::spec_read(b, GrappleMessageId::spec_from_message_id(id)) {
                Ok(m) => Ok(ManufacturerMessageV::Grapple(m)),
                Err(e) => Err(e),
            }
        } else {
            Err(MarshalError::NoMatch)
        }
    }
}

impl ManufacturerMessage {
    pub fn check_wf(&self) -> (r: bool)
        ensures
            r == self@.wf(),
    {
        match self {
            ManufacturerMessage::Ni(m) => m.check_wf(),
            ManufacturerMessage::Grapple(m) => m.check_wf(),
        }
    }

    /// Write the manufacturer code and the variant tags into the
    /// identifier.
    pub fn update(&self, id: &mut MessageId)
        ensures
            *final(id) == self@.spec_update(*old(id)),
    {
        match self {
            ManufacturerMessage::Ni(m) => {
                id.manufacturer = MANUFACTURER_NI;
                m.update(id);
            },
            ManufacturerMessage::Grapple(m) => {
                id.manufacturer = MANUFACTURER_GRAPPLE;
                let mut gid = GrappleMessageId::from_message_id(id);
                m.update(&mut gid);
                *id = gid.to_message_id();
            },
        }
    }

    /// Append the body bytes.
    pub fn write(&self, w: &mut BitWriter)
        requires
            self@.wf(),
            old(w).inv(),
            old(w).aligned(),
        ensures
            final(w).inv(),
            final(w).aligned(),
            final(w).bytes() == old(w).bytes() + self@.spec_bytes(),
    {
        match self {
            ManufacturerMessage::Ni(m) => m.write(w),
            ManufacturerMessage::Grapple(m) => m.write(w),
        }
    }

    /// Decode the message selected by the identifier from the remainder of
    /// the buffer.
    pub fn read(r: &mut BitReader, id: MessageId) -> (res: Result<
        ManufacturerMessage,
        MarshalError,
    >)
        requires
            old(r).inv(),
            old(r).aligned(),
        ensures
            final(r).inv(),
            final(r).data() == old(r).data(),
            res_view(res) == ManufacturerMessageV::spec_read(old(r).rest(), id),
    {
        if id.manufacturer == MANUFACTURER_NI {
            match NiDeviceMessage::read(r, id) {
                Ok(m) => Ok(ManufacturerMessage::Ni(m)),
                Err(e) => Err(e),
            }
        } else if id.manufacturer == MANUFACTURER_GRAPPLE {
            let gid = GrappleMessageId::from_message_id(&id);
            match MaybeFragment::read(r, gid) {
                Ok(m) => Ok(ManufacturerMessage::Grapple(m)),
                Err(e) => Err(e),
            }
        } else {
            Err(MarshalError::NoMatch)
        }
    }
}

impl Validate for ManufacturerMessage {
    open spec fn spec_validate(&self) -> Result<(), GrappleErrorV> {
        match self {
            ManufacturerMessage::Ni(_) => Ok(()),
            ManufacturerMessage::Grapple(m) => m.spec_validate(),
        }
    }

    fn validate(&self) -> (r: Result<(), GrappleError>) {
        match self {
            ManufacturerMessage::Ni(_) => Ok(()),
            ManufacturerMessage::Grapple(m) => m.validate(),
        }
    }
}

/// A complete logical message: the identifier and the typed payload it
/// selects.  The identifier is part of the message; bodies never duplicate
/// it.
#[derive(Debug, Clone, PartialEq, Eq)]
pub struct Message {
    pub id: MessageId,
    pub msg: ManufacturerMessage,
}

/// The mathematical model of [`Message`].
pub struct MessageV {
    pub id: MessageId,
    pub msg: ManufacturerMessageV,
}

impl View for Message {
    type V = MessageV;

    open spec fn view(&self) -> MessageV {
        MessageV { id: self.id, msg: self.msg@ }
    }
}

impl MessageV {
    /// The identifier agrees with the payload's variant tags.
    pub open spec fn wf(self) -> bool {
        self.msg.wf() && self.id == self.msg.spec_update(self.id) && self.id.device_id < 64
    }
}

impl Message {
    /// Assemble a message addressed to `device_id`: the identifier is
    /// computed from the payload's variant tags, so the application need
    /// not set identifier fields by hand.
    pub fn new(device_id: u8, msg: ManufacturerMessage) -> (r: Message)
        ensures
            r.id == msg@.spec_update(
                MessageId {
                    device_type: 0,
                    manufacturer: 0,
                    api_class: 0,
                    api_index: 0,
                    device_id,
                },
            ),
            r.msg == msg,
    {
        let mut id = MessageId {
            device_type: 0,
            manufacturer: 0,
            api_class: 0,
            api_index: 0,
            device_id,
        };
        msg.update(&mut id);
        Message { id, msg }
    }
}

impl Validate for Message {
    open spec fn spec_validate(&self) -> Result<(), GrappleErrorV> {
        self.msg.spec_validate()
    }

    fn validate(&self) -> (r: Result<(), GrappleError>) {
        self.msg.validate()
    }
}

/// Round trip of a whole message: marshalling computes the identifier from
/// the payload's variant tags and writes only the body bytes; decoding the
/// body under that identifier restores the payload exactly.
pub proof fn lemma_manufacturer_message_round_trip(m: ManufacturerMessageV, id: MessageId)
    requires
        m.wf(),
        id == m.spec_update(id),
    ensures
        ManufacturerMessageV::spec_read(m.spec_bytes(), id) == Ok::<
            ManufacturerMessageV,
            MarshalError,
        >(m),
{
    match m {
        ManufacturerMessageV::Ni(nm) => {
            crate::ni::lemma_ni_round_trip(nm, id);
        },
        ManufacturerMessageV::Grapple(gm) => {
            let gid0 = GrappleMessageId::spec_from_message_id(
                MessageId { manufacturer: MANUFACTURER_GRAPPLE, ..id },
            );
            let gid = gm.spec_update(gid0);
            assert(id == gid.spec_to_message_id());
            lemma_maybe_fragment_update_facts(gm, gid0);
            crate::grapple::lemma_grapple_id_round_trip(gid);
            assert(GrappleMessageId::spec_from_message_id(id) == gid);
            lemma_maybe_fragment_update_facts(gm, gid);
            crate::grapple::lemma_maybe_fragment_round_trip(gm, gid);
        },
    }
}

/// What marshalling writes into the vendor identifier, fragment or not:
/// effective class bits below sixteen, and writing twice writes the same
/// thing.
proof fn lemma_maybe_fragment_update_facts(gm: MaybeFragmentV, gid: GrappleMessageId)
    requires
        gm.wf(),
    ensures
        gm.spec_update(gid).api_class < 16,
        gm.spec_update(gm.spec_update(gid)) == gm.spec_update(gid),
{
    match gm {
        MaybeFragmentV::Fragment(_) => {},
        MaybeFragmentV::Message(dm) => {
            crate::grapple::lemma_device_message_update_props(
                dm,
                GrappleMessageId { fragment_flag: false, ..gid },
            );
            crate::grapple::lemma_device_message_update_props(
                dm,
                GrappleMessageId { fragment_flag: false, ..gm.spec_update(gid) },
            );
        },
    }
}

/// For any valid message assembled by [`Message::new`], decoding its
/// encoded body under its identifier restores it: decode of encode is the
/// identity on valid messages.
pub proof fn lemma_message_round_trip(m: ManufacturerMessageV, device_id: u8)
    requires
        m.wf(),
    ensures
        ({
            let id = m.spec_update(
                MessageId {
                    device_type: 0,
                    manufacturer: 0,
                    api_class: 0,
                    api_index: 0,
                    device_id,
                },
            );
            ManufacturerMessageV::spec_read(m.spec_bytes(), id) == Ok::<
                ManufacturerMessageV,
                MarshalError,
            >(m)
        }),
{
    let blank = MessageId {
        device_type: 0,
        manufacturer: 0,
        api_class: 0,
        api_index: 0,
        device_id,
    };
    let id = m.spec_update(blank);
    match m {
        ManufacturerMessageV::Ni(nm) => {
            lemma_manufacturer_message_round_trip(m, id);
        },
        ManufacturerMessageV::Grapple(gm) => {
            let gid0 = GrappleMessageId::spec_from_message_id(
                MessageId { manufacturer: MANUFACTURER_GRAPPLE, ..blank },
            );
            let gid = gm.spec_update(gid0);
            assert(id == gid.spec_to_message_id());
            lemma_maybe_fragment_update_facts(gm, gid0);
            crate::grapple::lemma_grapple_id_round_trip(gid);
            assert(id == m.spec_update(id));
            lemma_manufacturer_message_round_trip(m, id);
        },
    }
}

} // verus!
