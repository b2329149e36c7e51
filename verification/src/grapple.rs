//! Vendor message family: identifier view, request/ack wrapper, and the
//! device-type message tree.

pub mod device_info;
pub mod fragments;
pub mod firmware;
pub mod lasercan;
pub mod mitocandria;
pub mod errors;

use vstd::prelude::*;

verus! {

use crate::{MessageId, Validate};
use crate::bits::{BitReader, BitWriter, MarshalError};
use crate::grapple::device_info::{GrappleDeviceInfo, GrappleDeviceInfoV};
use crate::grapple::errors::{GrappleError, GrappleErrorV};
use crate::grapple::firmware::{GrappleFirmwareMessage, GrappleFirmwareMessageV};
use crate::grapple::fragments::{Fragment, FragmentV};
use crate::grapple::lasercan::LaserCanMessage;
use crate::grapple::mitocandria::{MitocandriaMessage, MitocandriaMessageV};
use crate::res_view;

/// Manufacturer code of the vendor family.
pub const MANUFACTURER_GRAPPLE: u8 = 6;

/// Device type of the distance sensor family.
pub const DEVICE_TYPE_DISTANCE_SENSOR: u8 = 6;

/// Device type of the power-distribution module family.
pub const DEVICE_TYPE_POWER_DISTRIBUTION_MODULE: u8 = 8;

/// Device type of the I/O breakout family.
pub const DEVICE_TYPE_IO_BREAKOUT: u8 = 11;

/// Device type of the Ethernet switch family.
pub const DEVICE_TYPE_SPIDERLAN: u8 = 12;

/// The vendor projection of [`MessageId`]: within the vendor namespace the
/// top two bits of `api_class` are repurposed as `fragment_flag` and
/// `ack_flag`, leaving four effective class bits.
#[derive(Debug, Clone, Copy, PartialEq, Eq, Structural)]
pub struct GrappleMessageId {
    pub device_type: u8,
    pub fragment_flag: bool,
    pub ack_flag: bool,
    pub api_class: u8,
    pub api_index: u8,
    pub device_id: u8,
}

impl GrappleMessageId {
    /// Every field fits its bit width (four effective class bits).
    pub open spec fn wf(self) -> bool {
        self.device_type < 32 && self.api_class < 16 && self.api_index < 16 && self.device_id < 64
    }

    /// A blank identifier addressed to `device_id`; the marshalling layer
    /// fills the remaining fields from the message variant tags.
    pub fn new(device_id: u8) -> (r: GrappleMessageId)
        ensures
            r == (GrappleMessageId {
                device_type: 0,
                fragment_flag: false,
                ack_flag: false,
                api_class: 0,
                api_index: 0,
                device_id,
            }),
    {
        GrappleMessageId {
            device_type: 0,
            fragment_flag: false,
            ack_flag: false,
            api_class: 0,
            api_index: 0,
            device_id,
        }
    }

    /// Fold the two flags back into the six-bit `api_class` field.
    pub open spec fn spec_to_message_id(self) -> MessageId {
        MessageId {
            device_type: self.device_type,
            manufacturer: MANUFACTURER_GRAPPLE,
            api_class: ((self.api_class % 16) + (if self.ack_flag {
                16u8
            } else {
                0u8
            }) + (if self.fragment_flag {
                32u8
            } else {
                0u8
            })) as u8,
            api_index: self.api_index,
            device_id: self.device_id,
        }
    }

    /// Split the six-bit `api_class` field into flags and effective class.
    pub open spec fn spec_from_message_id(id: MessageId) -> GrappleMessageId {
        GrappleMessageId {
            device_type: id.device_type,
            fragment_flag: ((id.api_class / 32) % 2) == 1,
            ack_flag: ((id.api_class / 16) % 2) == 1,
            api_class: (id.api_class % 16) as u8,
            api_index: id.api_index,
            device_id: id.device_id,
        }
    }

    pub fn to_message_id(&self) -> (r: MessageId)
        ensures
            r == self.spec_to_message_id(),
    {
        let flags: u8 = (if self.ack_flag {
            16u8
        } else {
            0u8
        }) + (if self.fragment_flag {
            32u8
        } else {
            0u8
        });
        MessageId {
            device_type: self.device_type,
            manufacturer: MANUFACTURER_GRAPPLE,
            api_class: (self.api_class % 16) + flags,
            api_index: self.api_index,
            device_id: self.device_id,
        }
    }

    pub fn from_message_id(id: &MessageId) -> (r: GrappleMessageId)
        ensures
            r == GrappleMessageId::spec_from_message_id(*id),
    {
        GrappleMessageId {
            device_type: id.device_type,
            fragment_flag: ((id.api_class / 32) % 2) == 1,
            ack_flag: ((id.api_class / 16) % 2) == 1,
            api_class: id.api_class % 16,
            api_index: id.api_index,
            device_id: id.device_id,
        }
    }
}

/// The vendor projection loses nothing: folding the flags back into
/// `api_class` and splitting again restores the projection.
pub proof fn lemma_grapple_id_round_trip(g: GrappleMessageId)
    requires
        g.api_class < 16,
    ensures
        GrappleMessageId::spec_from_message_id(g.spec_to_message_id()) == g,
{
    let c = g.api_class;
    let a: u8 = if g.ack_flag {
        1
    } else {
        0
    };
    let f: u8 = if g.fragment_flag {
        1
    } else {
        0
    };
    assert(c < 16 && a <= 1 && f <= 1 ==> {
        &&& (((c + a * 16 + f * 32) / 32) % 2) == f
        &&& (((c + a * 16 + f * 32) / 16) % 2) == a
        &&& ((c + a * 16 + f * 32) % 16) == c
    }) by (bit_vector);
}

/// Splitting a packed vendor identifier and folding it again restores the
/// six-bit class field.
pub proof fn lemma_message_id_grapple_round_trip(id: MessageId)
    requires
        id.manufacturer == MANUFACTURER_GRAPPLE,
        id.api_class < 64,
    ensures
        GrappleMessageId::spec_from_message_id(id).spec_to_message_id() == id,
{
    let c = id.api_class;
    assert(c < 64 ==> ((c % 16) + (if ((c / 16) % 2) == 1 {
        16u8
    } else {
        0u8
    }) + (if ((c / 32) % 2) == 1 {
        32u8
    } else {
        0u8
    })) == c) by (bit_vector);
}

/// An operation sent in two wire shapes: the request body or the
/// acknowledgement body, discriminated by the identifier's ack bit rather
/// than by an in-band byte.
#[derive(Debug, Clone, Copy, PartialEq, Eq)]
pub enum Request<R, A> {
    Ack(A),
    Request(R),
}

impl<R: View, A: View> View for Request<R, A> {
    type V = Request<R::V, A::V>;

    open spec fn view(&self) -> Request<R::V, A::V> {
        match self {
            Request::Ack(a) => Request::Ack(a@),
            Request::Request(r) => Request::Request(r@),
        }
    }
}

/// Broadcast operations, selected by `api_class`.
#[derive(Debug, Clone, PartialEq, Eq)]
pub enum GrappleBroadcastMessage {
    DeviceInfo(GrappleDeviceInfo),
}

/// The mathematical model of [`GrappleBroadcastMessage`].
pub enum GrappleBroadcastMessageV {
    DeviceInfo(GrappleDeviceInfoV),
}

impl View for GrappleBroadcastMessage {
    type V = GrappleBroadcastMessageV;

    open spec fn view(&self) -> GrappleBroadcastMessageV {
        match self {
            GrappleBroadcastMessage::DeviceInfo(di) => GrappleBroadcastMessageV::DeviceInfo(di@),
        }
    }
}

impl GrappleBroadcastMessageV {
    pub open spec fn wf(self) -> bool {
        match self {
            GrappleBroadcastMessageV::DeviceInfo(di) => di.wf(),
        }
    }

    /// Device-info operations live at `api_class` zero.
    pub open spec fn spec_update(self, id: GrappleMessageId) -> GrappleMessageId {
        match self {
            GrappleBroadcastMessageV::DeviceInfo(di) => di.spec_update(
                GrappleMessageId { api_class: 0, ..id },
            ),
        }
    }

    pub open spec fn spec_bytes(self) -> Seq<u8> {
        match self {
            GrappleBroadcastMessageV::DeviceInfo(di) => di.spec_bytes(),
        }
    }

    pub open spec fn spec_read(b: Seq<u8>, ctx: GrappleMessageId) -> Result<
        GrappleBroadcastMessageV,
        MarshalError,
    > {
        if ctx.api_class == 0 {
            match GrappleDeviceInfoV::spec_read(b, ctx) {
                Ok(di) => Ok(GrappleBroadcastMessageV::DeviceInfo(di)),
                Err(e) => Err(e),
            }
        } else {
            Err(MarshalError::NoMatch)
        }
    }
}

impl GrappleBroadcastMessage {
    pub fn check_wf(&self) -> (r: bool)
        ensures
            r == self@.wf(),
    {
        match self {
            GrappleBroadcastMessage::DeviceInfo(di) => di.check_wf(),
        }
    }

    pub fn update(&self, id: &mut GrappleMessageId)
        ensures
            *final(id) == self@.spec_update(*old(id)),
    {
        id.api_class = 0;
        match self {
            GrappleBroadcastMessage::DeviceInfo(di) => di.update(id),
        }
    }

    pub fn write(&self, w: &mut BitWriter)
        requires
            self@.wf(),
            old(w).inv(),
            old(w).aligned(),
        ensures
            final(w).inv(),
            final(w).aligned(),
            final(w).bytes() == old(w).bytes() + self@.spec_bytes(),
    {
        match self {
            GrappleBroadcastMessage::DeviceInfo(di) => di.write(w),
        }
    }

    pub fn read(r: &mut BitReader, ctx: GrappleMessageId) -> (res: Result<
        GrappleBroadcastMessage,
        MarshalError,
    >)
        requires
            old(r).inv(),
            old(r).aligned(),
        ensures
            final(r).inv(),
            final(r).data() == old(r).data(),
            res_view(res) == GrappleBroadcastMessageV::spec_read(old(r).rest(), ctx),
    {
        if ctx.api_class == 0 {
            match GrappleDeviceInfo::read(r, ctx) {
                Ok(di) => Ok(GrappleBroadcastMessage::DeviceInfo(di)),
                Err(e) => Err(e),
            }
        } else {
            Err(MarshalError::NoMatch)
        }
    }
}

impl Validate for GrappleBroadcastMessage {
    open spec fn spec_validate(&self) -> Result<(), GrappleErrorV> {
        Ok(())
    }

    fn validate(&self) -> (r: Result<(), GrappleError>) {
        Ok(())
    }
}

/// Vendor device families, selected by `device_type`.
#[derive(Debug, Clone, PartialEq, Eq)]
pub enum GrappleDeviceMessage {
    Broadcast(GrappleBroadcastMessage),
    FirmwareUpdate(GrappleFirmwareMessage),
    DistanceSensor(LaserCanMessage),
    PowerDistributionModule(MitocandriaMessage),
}

/// The mathematical model of [`GrappleDeviceMessage`].
pub enum GrappleDeviceMessageV {
    Broadcast(GrappleBroadcastMessageV),
    FirmwareUpdate(GrappleFirmwareMessageV),
    DistanceSensor(LaserCanMessage),
    PowerDistributionModule(MitocandriaMessageV),
}

impl View for GrappleDeviceMessage {
    type V = GrappleDeviceMessageV;

    open spec fn view(&self) -> GrappleDeviceMessageV {
        match self {
            GrappleDeviceMessage::Broadcast(m) => GrappleDeviceMessageV::Broadcast(m@),
            GrappleDeviceMessage::FirmwareUpdate(m) => GrappleDeviceMessageV::FirmwareUpdate(m@),
            GrappleDeviceMessage::DistanceSensor(m) => GrappleDeviceMessageV::DistanceSensor(*m),
            GrappleDeviceMessage::PowerDistributionModule(m) => {
                GrappleDeviceMessageV::PowerDistributionModule(m@)
            },
        }
    }
}

impl GrappleDeviceMessageV {
    /// The `device_type` value that selects this family.
    pub open spec fn spec_device_type(self) -> u8 {
        match self {
            GrappleDeviceMessageV::Broadcast(_) => 0,
            GrappleDeviceMessageV::FirmwareUpdate(_) => 31,
            GrappleDeviceMessageV::DistanceSensor(_) => 6,
            GrappleDeviceMessageV::PowerDistributionModule(_) => 8,
        }
    }

    pub open spec fn wf(self) -> bool {
        match self {
            GrappleDeviceMessageV::Broadcast(m) => m.wf(),
            GrappleDeviceMessageV::FirmwareUpdate(m) => m.wf(),
            GrappleDeviceMessageV::DistanceSensor(m) => m.wf(),
            GrappleDeviceMessageV::PowerDistributionModule(m) => m.wf(),
        }
    }

    /// The family tag lands in `device_type`; the inner operation fills the
    /// rest.
    pub open spec fn spec_update(self, id: GrappleMessageId) -> GrappleMessageId {
        match self {
            GrappleDeviceMessageV::Broadcast(m) => m.spec_update(
                GrappleMessageId { device_type: 0, ..id },
            ),
            GrappleDeviceMessageV::FirmwareUpdate(m) => m.spec_update(
                GrappleMessageId { device_type: 31, ..id },
            ),
            GrappleDeviceMessageV::DistanceSensor(m) => m.spec_update(
                GrappleMessageId { device_type: 6, ..id },
            ),
            GrappleDeviceMessageV::PowerDistributionModule(m) => m.spec_update(
                GrappleMessageId { device_type: 8, ..id },
            ),
        }
    }

    pub open spec fn spec_bytes(self) -> Seq<u8> {
        match self {
            GrappleDeviceMessageV::Broadcast(m) => m.spec_bytes(),
            GrappleDeviceMessageV::FirmwareUpdate(m) => m.spec_bytes(),
            GrappleDeviceMessageV::DistanceSensor(m) => m.spec_bytes(),
            GrappleDeviceMessageV::PowerDistributionModule(m) => m.spec_bytes(),
        }
    }

    pub open spec fn spec_read(b: Seq<u8>, ctx: GrappleMessageId) -> Result<
        GrappleDeviceMessageV,
        MarshalError,
    > {
        if ctx.device_type == 0 {
            match GrappleBroadcastMessageV::spec_read(b, ctx) {
                Ok(m) => Ok(GrappleDeviceMessageV::Broadcast(m)),
                Err(e) => Err(e),
            }
        } else if ctx.device_type == 31 {
            match GrappleFirmwareMessageV::spec_read(b, ctx) {
                Ok(m) => Ok(GrappleDeviceMessageV::FirmwareUpdate(m)),
                Err(e) => Err(e),
            }
        } else if ctx.device_type == 6 {
            match LaserCanMessage::spec_read(b, ctx) {
                Ok(m) => Ok(GrappleDeviceMessageV::DistanceSensor(m)),
                Err(e) => Err(e),
            }
        } else if ctx.device_type == 8 {
            match MitocandriaMessageV::spec_read(b, ctx) {
                Ok(m) => Ok(GrappleDeviceMessageV::PowerDistributionModule(m)),
                Err(e) => Err(e),
            }
        } else {
            Err(MarshalError::NoMatch)
        }
    }
}

impl GrappleDeviceMessage {
    pub fn check_wf(&self) -> (r: bool)
        ensures
            r == self@.wf(),
    {
        match self {
            GrappleDeviceMessage::Broadcast(m) => m.check_wf(),
            GrappleDeviceMessage::FirmwareUpdate(_) => true,
            GrappleDeviceMessage::DistanceSensor(m) => m.check_wf(),
            GrappleDeviceMessage::PowerDistributionModule(m) => m.check_wf(),
        }
    }

    pub fn update(&self, id: &mut GrappleMessageId)
        ensures
            *final(id) == self@.spec_update(*old(id)),
    {
        match self {
            GrappleDeviceMessage::Broadcast(m) => {
                id.device_type = 0;
                m.update(id);
            },
            GrappleDeviceMessage::FirmwareUpdate(m) => {
                id.device_type = 31;
                m.update(id);
            },
            GrappleDeviceMessage::DistanceSensor(m) => {
                id.device_type = 6;
                m.update(id);
            },
            GrappleDeviceMessage::PowerDistributionModule(m) => {
                id.device_type = 8;
                m.update(id);
            },
        }
    }

    pub fn write(&self, w: &mut BitWriter)
        requires
            self@.wf(),
            old(w).inv(),
            old(w).aligned(),
        ensures
            final(w).inv(),
            final(w).aligned(),
            final(w).bytes() == old(w).bytes() + self@.spec_bytes(),
    {
        match self {
            GrappleDeviceMessage::Broadcast(m) => m.write(w),
            GrappleDeviceMessage::FirmwareUpdate(m) => m.write(w),
            GrappleDeviceMessage::DistanceSensor(m) => m.write(w),
            GrappleDeviceMessage::PowerDistributionModule(m) => m.write(w),
        }
    }

    pub fn read(r: &mut BitReader, ctx: GrappleMessageId) -> (res: Result<
        GrappleDeviceMessage,
        MarshalError,
    >)
        requires
            old(r).inv(),
            old(r).aligned(),
        ensures
            final(r).inv(),
            final(r).data() == old(r).data(),
            res_view(res) == GrappleDeviceMessageV::spec_read(old(r).rest(), ctx),
    {
        if ctx.device_type == 0 {
            match GrappleBroadcastMessage::read(r, ctx) {
                Ok(m) => Ok(GrappleDeviceMessage::Broadcast(m)),
                Err(e) => Err(e),
            }
        } else if ctx.device_type == 31 {
            match GrappleFirmwareMessage::read(r, ctx) {
                Ok(m) => Ok(GrappleDeviceMessage::FirmwareUpdate(m)),
                Err(e) => Err(e),
            }
        } else if ctx.device_type == 6 {
            match LaserCanMessage::read(r, ctx) {
                Ok(m) => Ok(GrappleDeviceMessage::DistanceSensor(m)),
                Err(e) => Err(e),
            }
        } else if ctx.device_type == 8 {
            match MitocandriaMessage::read(r, ctx) {
                Ok(m) => Ok(GrappleDeviceMessage::PowerDistributionModule(m)),
                Err(e) => Err(e),
            }
        } else {
            Err(MarshalError::NoMatch)
        }
    }
}

impl Validate for GrappleDeviceMessage {
    open spec fn spec_validate(&self) -> Result<(), GrappleErrorV> {
        match self {
            GrappleDeviceMessage::Broadcast(m) => m.spec_validate(),
            GrappleDeviceMessage::FirmwareUpdate(_) => Ok(()),
            GrappleDeviceMessage::DistanceSensor(m) => m.spec_validate(),
            GrappleDeviceMessage::PowerDistributionModule(_) => Ok(()),
        }
    }

    fn validate(&self) -> (r: Result<(), GrappleError>) {
        match self {
            GrappleDeviceMessage::Broadcast(m) => m.validate(),
            GrappleDeviceMessage::FirmwareUpdate(_) => Ok(()),
            GrappleDeviceMessage::DistanceSensor(m) => m.validate(),
            GrappleDeviceMessage::PowerDistributionModule(_) => Ok(()),
        }
    }
}

/// Either one frame of a fragment stream, or a whole device message; the
/// identifier's fragment bit discriminates.
#[derive(Debug, Clone, PartialEq, Eq)]
pub enum MaybeFragment {
    Fragment(Fragment),
    Message(GrappleDeviceMessage),
}

/// The mathematical model of [`MaybeFragment`].
pub enum MaybeFragmentV {
    Fragment(FragmentV),
    Message(GrappleDeviceMessageV),
}

impl View for MaybeFragment {
    type V = MaybeFragmentV;

    open spec fn view(&self) -> MaybeFragmentV {
        match self {
            MaybeFragment::Fragment(f) => MaybeFragmentV::Fragment(f@),
            MaybeFragment::Message(m) => MaybeFragmentV::Message(m@),
        }
    }
}

impl MaybeFragmentV {
    pub open spec fn wf(self) -> bool {
        match self {
            MaybeFragmentV::Fragment(f) => f.wf(),
            MaybeFragmentV::Message(m) => m.wf(),
        }
    }

    pub open spec fn spec_update(self, id: GrappleMessageId) -> GrappleMessageId {
        match self {
            MaybeFragmentV::Fragment(f) => f.spec_update(id),
            MaybeFragmentV::Message(m) => m.spec_update(
                GrappleMessageId { fragment_flag: false, ..id },
            ),
        }
    }

    pub open spec fn spec_bytes(self) -> Seq<u8> {
        match self {
            MaybeFragmentV::Fragment(f) => f.spec_bytes(),
            MaybeFragmentV::Message(m) => m.spec_bytes(),
        }
    }

    pub open spec fn spec_read(b: Seq<u8>, ctx: GrappleMessageId) -> Result<
        MaybeFragmentV,
        MarshalError,
    > {
        if ctx.fragment_flag {
            match FragmentV::spec_read(b, ctx) {
                Ok(f) => Ok(MaybeFragmentV::Fragment(f)),
                Err(e) => Err(e),
            }
        } else {
            match GrappleDeviceMessageV::spec_read(b, ctx) {
                Ok(m) => Ok(MaybeFragmentV::Message(m)),
                Err(e) => Err(e),
            }
        }
    }
}

impl MaybeFragment {
    pub fn check_wf(&self) -> (r: bool)
        ensures
            r == self@.wf(),
    {
        match self {
            MaybeFragment::Fragment(f) => f.check_wf(),
            MaybeFragment::Message(m) => m.check_wf(),
        }
    }

    pub fn update(&self, id: &mut GrappleMessageId)
        ensures
            *final(id) == self@.spec_update(*old(id)),
    {
        match self {
            MaybeFragment::Fragment(f) => f.update(id),
            MaybeFragment::Message(m) => {
                id.fragment_flag = false;
                m.update(id);
            },
        }
    }

    pub fn write(&self, w: &mut BitWriter)
        requires
            self@.wf(),
            old(w).inv(),
            old(w).aligned(),
        ensures
            final(w).inv(),
            final(w).aligned(),
            final(w).bytes() == old(w).bytes() + self@.spec_bytes(),
    {
        match self {
            MaybeFragment::Fragment(f) => f.write(w),
            MaybeFragment::Message(m) => m.write(w),
        }
    }

    pub fn read(r: &mut BitReader, ctx: GrappleMessageId) -> (res: Result<
        MaybeFragment,
        MarshalError,
    >)
        requires
            old(r).inv(),
            old(r).aligned(),
        ensures
            final(r).inv(),
            final(r).data() == old(r).data(),
            res_view(res) == MaybeFragmentV::spec_read(old(r).rest(), ctx),
    {
        if ctx.fragment_flag {
            match Fragment::read(r, ctx) {
                Ok(f) => Ok(MaybeFragment::Fragment(f)),
                Err(e) => Err(e),
            }
        } else {
            match GrappleDeviceMessage::read(r, ctx) {
                Ok(m) => Ok(MaybeFragment::Message(m)),
                Err(e) => Err(e),
            }
        }
    }
}

impl Validate for MaybeFragment {
    open spec fn spec_validate(&self) -> Result<(), GrappleErrorV> {
        match self {
            MaybeFragment::Fragment(_) => Ok(()),
            MaybeFragment::Message(m) => m.spec_validate(),
        }
    }

    fn validate(&self) -> (r: Result<(), GrappleError>) {
        match self {
            MaybeFragment::Fragment(_) => Ok(()),
            MaybeFragment::Message(m) => m.validate(),
        }
    }
}

/// A device message together with the device id it is addressed to; the
/// rest of the identifier follows from the message itself.
#[derive(Debug, Clone, PartialEq, Eq)]
pub struct TaggedGrappleMessage {
    pub device_id: u8,
    pub msg: GrappleDeviceMessage,
}

impl TaggedGrappleMessage {
    pub fn new(device_id: u8, msg: GrappleDeviceMessage) -> (r: TaggedGrappleMessage)
        ensures
            r.device_id == device_id,
            r.msg == msg,
    {
        TaggedGrappleMessage { device_id, msg }
    }
}

/// Decoding an encoded device message under the identifier the marshalling
/// layer computes restores the message exactly.
pub proof fn lemma_device_message_round_trip(m: GrappleDeviceMessageV, ctx: GrappleMessageId)
    requires
        m.wf(),
        ctx == m.spec_update(ctx),
    ensures
        GrappleDeviceMessageV::spec_read(m.spec_bytes(), ctx) == Ok::<
            GrappleDeviceMessageV,
            MarshalError,
        >(m),
{
    match m {
        GrappleDeviceMessageV::Broadcast(bm) => {
            match bm {
                GrappleBroadcastMessageV::DeviceInfo(di) => {
                    crate::grapple::device_info::lemma_device_info_round_trip(di, ctx);
                },
            }
        },
        GrappleDeviceMessageV::FirmwareUpdate(fm) => {
            crate::grapple::firmware::lemma_firmware_round_trip(fm, ctx);
        },
        GrappleDeviceMessageV::DistanceSensor(lm) => {
            crate::grapple::lasercan::lemma_lasercan_round_trip(lm, ctx);
        },
        GrappleDeviceMessageV::PowerDistributionModule(pm) => {
            crate::grapple::mitocandria::lemma_mitocandria_round_trip(pm, ctx);
        },
    }
}

/// Decoding an encoded fragment-or-message under the identifier the
/// marshalling layer computes restores it exactly; in particular the
/// fragment bit discriminates the two shapes.
pub proof fn lemma_maybe_fragment_round_trip(m: MaybeFragmentV, ctx: GrappleMessageId)
    requires
        m.wf(),
        ctx == m.spec_update(ctx),
    ensures
        MaybeFragmentV::spec_read(m.spec_bytes(), ctx) == Ok::<MaybeFragmentV, MarshalError>(m),
{
    match m {
        MaybeFragmentV::Fragment(f) => {
            crate::grapple::fragments::lemma_fragment_round_trip(f, ctx);
        },
        MaybeFragmentV::Message(dm) => {
            lemma_device_message_round_trip(dm, ctx);
        },
    }
}

/// What marshalling writes into the identifier, for any device message:
/// tags below their field widths, outer fields untouched, and writing twice
/// writes the same thing.
pub proof fn lemma_device_message_update_props(m: GrappleDeviceMessageV, id: GrappleMessageId)
    ensures
        ({
            let u = m.spec_update(id);
            &&& u.api_class < 16
            &&& u.device_type < 32
            &&& (id.api_index < 16 ==> u.api_index < 16)
            &&& u.fragment_flag == id.fragment_flag
            &&& u.device_id == id.device_id
            &&& m.spec_update(u) == u
        }),
{
    match m {
        GrappleDeviceMessageV::Broadcast(bm) => {
            match bm {
                GrappleBroadcastMessageV::DeviceInfo(_) => {},
            }
        },
        GrappleDeviceMessageV::FirmwareUpdate(_) => {},
        GrappleDeviceMessageV::DistanceSensor(_) => {},
        GrappleDeviceMessageV::PowerDistributionModule(pm) => {
            match pm {
                crate::grapple::mitocandria::MitocandriaMessageV::StatusFrame(_) => {},
                crate::grapple::mitocandria::MitocandriaMessageV::ChannelRequest(_) => {},
            }
        },
    }
}

} // verus!
