//! Over-the-air firmware upgrade operations.
//!
//! The operation is selected by the identifier's `api_class`.  Update chunks
//! travel as the raw remainder of the frame; the extended part-update carries
//! an explicit offset and uses request/ack semantics.

use vstd::prelude::*;

verus! {

use crate::bits::{
    BitReader, BitWriter, MarshalError, be32_at, u32_be_bytes, lemma_u32_be_recompose,
};
use crate::grapple::{GrappleMessageId, Request};
use crate::res_view;

/// Body of the extended part update: where the chunk lands, then the chunk
/// itself as the remainder of the frame.
#[derive(Debug, Clone, PartialEq, Eq)]
pub struct UpdatePartV2Payload {
    pub offset: u32,
    pub payload: Vec<u8>,
}

/// The mathematical model of [`UpdatePartV2Payload`].
pub struct UpdatePartV2PayloadV {
    pub offset: u32,
    pub payload: Seq<u8>,
}

impl View for UpdatePartV2Payload {
    type V = UpdatePartV2PayloadV;

    open spec fn view(&self) -> UpdatePartV2PayloadV {
        UpdatePartV2PayloadV { offset: self.offset, payload: self.payload@ }
    }
}

/// Firmware upgrade operations, selected by `api_class`.
#[derive(Debug, Clone, PartialEq, Eq)]
pub enum GrappleFirmwareMessage {
    StartFieldUpgrade { serial: u32 },
    UpdatePart(Vec<u8>),
    UpdatePartAck,
    UpdateDone,
    UpdatePartV2(Request<UpdatePartV2Payload, ()>),
}

/// The mathematical model of [`GrappleFirmwareMessage`].
pub enum GrappleFirmwareMessageV {
    StartFieldUpgrade { serial: u32 },
    UpdatePart(Seq<u8>),
    UpdatePartAck,
    UpdateDone,
    UpdatePartV2(Request<UpdatePartV2PayloadV, ()>),
}

impl View for GrappleFirmwareMessage {
    type V = GrappleFirmwareMessageV;

    open spec fn view(&self) -> GrappleFirmwareMessageV {
        match self {
            GrappleFirmwareMessage::StartFieldUpgrade { serial } => {
                GrappleFirmwareMessageV::StartFieldUpgrade { serial: *serial }
            },
            GrappleFirmwareMessage::UpdatePart(p) => GrappleFirmwareMessageV::UpdatePart(p@),
            GrappleFirmwareMessage::UpdatePartAck => GrappleFirmwareMessageV::UpdatePartAck,
            GrappleFirmwareMessage::UpdateDone => GrappleFirmwareMessageV::UpdateDone,
            GrappleFirmwareMessage::UpdatePartV2(r) => GrappleFirmwareMessageV::UpdatePartV2(r@),
        }
    }
}

impl GrappleFirmwareMessageV {
    /// The `api_class` value that selects this operation.
    pub open spec fn spec_tag(self) -> u8 {
        match self {
            GrappleFirmwareMessageV::StartFieldUpgrade { .. } => 0,
            GrappleFirmwareMessageV::UpdatePart(_) => 1,
            GrappleFirmwareMessageV::UpdatePartAck => 2,
            GrappleFirmwareMessageV::UpdateDone => 3,
            GrappleFirmwareMessageV::UpdatePartV2(_) => 4,
        }
    }

    /// All bodies are raw; nothing is length-tagged.
    pub open spec fn wf(self) -> bool {
        true
    }

    /// The operation tag lands in `api_class`; the extended part update also
    /// drives the ack bit from its request/ack side.
    pub open spec fn spec_update(self, id: GrappleMessageId) -> GrappleMessageId {
        match self {
            GrappleFirmwareMessageV::UpdatePartV2(r) => GrappleMessageId {
                api_class: self.spec_tag(),
                ack_flag: r is Ack,
                ..id
            },
            _ => GrappleMessageId { api_class: self.spec_tag(), ..id },
        }
    }

    /// The body bytes of the operation.
    pub open spec fn spec_bytes(self) -> Seq<u8> {
        match self {
            GrappleFirmwareMessageV::StartFieldUpgrade { serial } => u32_be_bytes(serial),
            GrappleFirmwareMessageV::UpdatePart(p) => p,
            GrappleFirmwareMessageV::UpdatePartAck => Seq::<u8>::empty(),
            GrappleFirmwareMessageV::UpdateDone => Seq::<u8>::empty(),
            GrappleFirmwareMessageV::UpdatePartV2(r) => match r {
                Request::Request(pl) => u32_be_bytes(pl.offset) + pl.payload,
                Request::Ack(_) => Seq::<u8>::empty(),
            },
        }
    }

    /// What decoding yields from body `b` under identifier `ctx`.
    pub open spec fn spec_read(b: Seq<u8>, ctx: GrappleMessageId) -> Result<
        GrappleFirmwareMessageV,
        MarshalError,
    > {
        if ctx.api_class == 0 {
            if b.len() < 4 {
                Err(MarshalError::BufferExhausted)
            } else {
                Ok(GrappleFirmwareMessageV::StartFieldUpgrade { serial: be32_at(b, 0) })
            }
        } else if ctx.api_class == 1 {
            Ok(GrappleFirmwareMessageV::UpdatePart(b))
        } else if ctx.api_class == 2 {
            Ok(GrappleFirmwareMessageV::UpdatePartAck)
        } else if ctx.api_class == 3 {
            Ok(GrappleFirmwareMessageV::UpdateDone)
        } else if ctx.api_class == 4 {
            if ctx.ack_flag {
                Ok(GrappleFirmwareMessageV::UpdatePartV2(Request::Ack(())))
            } else if b.len() < 4 {
                Err(MarshalError::BufferExhausted)
            } else {
                Ok(
                    GrappleFirmwareMessageV::UpdatePartV2(
                        Request::Request(
                            UpdatePartV2PayloadV {
                                offset: be32_at(b, 0),
                                payload: b.subrange(4, b.len() as int),
                            },
                        ),
                    ),
                )
            }
        } else {
            Err(MarshalError::NoMatch)
        }
    }
}

impl GrappleFirmwareMessage {
    /// The `api_class` value that selects this operation.
    pub fn tag(&self) -> (t: u8)
        ensures
            t == self@.spec_tag(),
    {
        match self {
            GrappleFirmwareMessage::StartFieldUpgrade { .. } => 0,
            GrappleFirmwareMessage::UpdatePart(_) => 1,
            GrappleFirmwareMessage::UpdatePartAck => 2,
            GrappleFirmwareMessage::UpdateDone => 3,
            GrappleFirmwareMessage::UpdatePartV2(_) => 4,
        }
    }

    /// Write the operation tag and, for the extended part update, the ack
    /// bit into the identifier.
    pub fn update(&self, id: &mut GrappleMessageId)
        ensures
            *final(id) == self@.spec_update(*old(id)),
    {
        id.api_class = self.tag();
        match self {
            GrappleFirmwareMessage::UpdatePartV2(r) => {
                id.ack_flag = match r {
                    Request::Ack(_) => true,
                    Request::Request(_) => false,
                };
            },
            _ => {},
        }
    }

    /// Append the body bytes.
    pub fn write(&self, w: &mut BitWriter)
        requires
            old(w).inv(),
            old(w).aligned(),
        ensures
            final(w).inv(),
            final(w).aligned(),
            final(w).bytes() == old(w).bytes() + self@.spec_bytes(),
    {
        match self {
            GrappleFirmwareMessage::StartFieldUpgrade { serial } => {
                w.write_u32_be(*serial);
            },
            GrappleFirmwareMessage::UpdatePart(p) => {
                w.write_bytes(p.as_slice());
            },
            GrappleFirmwareMessage::UpdatePartAck => {
                proof {
                    assert(w.bytes() =~= old(w).bytes() + self@.spec_bytes());
                }
            },
            GrappleFirmwareMessage::UpdateDone => {
                proof {
                    assert(w.bytes() =~= old(w).bytes() + self@.spec_bytes());
                }
            },
            GrappleFirmwareMessage::UpdatePartV2(r) => {
                match r {
                    Request::Request(pl) => {
                        w.write_u32_be(pl.offset);
                        w.write_bytes(pl.payload.as_slice());
                        proof {
                            assert(w.bytes() =~= old(w).bytes() + self@.spec_bytes());
                        }
                    },
                    Request::Ack(_) => {
                        proof {
                            assert(w.bytes() =~= old(w).bytes() + self@.spec_bytes());
                        }
                    },
                }
            },
        }
    }

    /// Decode the operation selected by `ctx.api_class` from the remainder
    /// of the buffer.
    pub fn read(r: &mut BitReader, ctx: GrappleMessageId) -> (res: Result<
        GrappleFirmwareMessage,
        MarshalError,
    >)
        requires
            old(r).inv(),
            old(r).aligned(),
        ensures
            final(r).inv(),
            final(r).data() == old(r).data(),
            res_view(res) == GrappleFirmwareMessageV::spec_read(old(r).rest(), ctx),
    {
        let ghost b = old(r).rest();
        if ctx.api_class == 0 {
            let serial = r.read_u32_be()?;
            proof {
                lemma_u32_be_recompose(serial);
                assert(b[0] == u32_be_bytes(serial)[0]);
                assert(b[1] == u32_be_bytes(serial)[1]);
                assert(b[2] == u32_be_bytes(serial)[2]);
                assert(b[3] == u32_be_bytes(serial)[3]);
            }
            Ok(GrappleFirmwareMessage::StartFieldUpgrade { serial })
        } else if ctx.api_class == 1 {
            let p = r.read_rest();
            Ok(GrappleFirmwareMessage::UpdatePart(p))
        } else if ctx.api_class == 2 {
            Ok(GrappleFirmwareMessage::UpdatePartAck)
        } else if ctx.api_class == 3 {
            Ok(GrappleFirmwareMessage::UpdateDone)
        } else if ctx.api_class == 4 {
            if ctx.ack_flag {
                Ok(GrappleFirmwareMessage::UpdatePartV2(Request::Ack(())))
            } else {
                let offset = r.read_u32_be()?;
                let payload = r.read_rest();
                proof {
                    lemma_u32_be_recompose(offset);
                    assert(b[0] == u32_be_bytes(offset)[0]);
                    assert(b[1] == u32_be_bytes(offset)[1]);
                    assert(b[2] == u32_be_bytes(offset)[2]);
                    assert(b[3] == u32_be_bytes(offset)[3]);
                    assert(payload@ =~= b.subrange(4, b.len() as int));
                }
                Ok(
                    GrappleFirmwareMessage::UpdatePartV2(
                        Request::Request(UpdatePartV2Payload { offset, payload }),
                    ),
                )
            }
        } else {
            Err(MarshalError::NoMatch)
        }
    }
}

/// Decoding an encoded firmware operation under the identifier the
/// marshalling layer writes restores the operation exactly.
pub proof fn lemma_firmware_round_trip(m: GrappleFirmwareMessageV, ctx: GrappleMessageId)
    requires
        ctx.api_class == m.spec_tag(),
        m is UpdatePartV2 ==> ctx.ack_flag == (m->UpdatePartV2_0 is Ack),
    ensures
        GrappleFirmwareMessageV::spec_read(m.spec_bytes(), ctx) == Ok::<
            GrappleFirmwareMessageV,
            MarshalError,
        >(m),
{
    let b = m.spec_bytes();
    match m {
        GrappleFirmwareMessageV::StartFieldUpgrade { serial } => {
            lemma_u32_be_recompose(serial);
            assert(be32_at(b, 0) == serial);
        },
        GrappleFirmwareMessageV::UpdatePart(p) => {
            assert(b =~= p);
        },
        GrappleFirmwareMessageV::UpdatePartAck => {},
        GrappleFirmwareMessageV::UpdateDone => {},
        GrappleFirmwareMessageV::UpdatePartV2(r) => {
            match r {
                Request::Request(pl) => {
                    assert(b[0] == u32_be_bytes(pl.offset)[0]);
                    assert(b[1] == u32_be_bytes(pl.offset)[1]);
                    assert(b[2] == u32_be_bytes(pl.offset)[2]);
                    assert(b[3] == u32_be_bytes(pl.offset)[3]);
                    lemma_u32_be_recompose(pl.offset);
                    assert(be32_at(b, 0) == pl.offset);
                    assert(b.subrange(4, b.len() as int) =~= pl.payload);
                },
                Request::Ack(a) => {
                    assert(Request::Ack::<UpdatePartV2PayloadV, ()>(a) == Request::Ack::<
                        UpdatePartV2PayloadV,
                        (),
                    >(()));
                },
            }
        },
    }
}

} // verus!
