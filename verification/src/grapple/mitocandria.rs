//! Power-distribution module operations: the channel status frame and the
//! switch/adjust requests, each of the latter in request/ack shape.
//!
//! Every channel status travels as a fixed eight-byte record: a tag byte, an
//! enable byte, then three big-endian 16-bit fields (voltage, setpoint,
//! current); fields a channel kind does not carry are zero on the wire.

use vstd::prelude::*;

verus! {

use crate::bits::{
    BitReader, BitWriter, MarshalError, be16_at, u16_be_bytes, lemma_u16_be_recompose,
};
use crate::grapple::{GrappleMessageId, Request};
use crate::res_view;

/// Status of one power channel.
#[derive(Debug, Clone, Copy, PartialEq, Eq, Structural)]
pub enum MitocandriaChannelStatus {
    Switchable { enabled: bool, current: u16 },
    NonSwitchable { current: u16 },
    Adjustable { enabled: bool, voltage: u16, voltage_setpoint: u16, current: u16 },
}

impl MitocandriaChannelStatus {
    pub open spec fn spec_tag(self) -> u8 {
        match self {
            MitocandriaChannelStatus::Switchable { .. } => 0,
            MitocandriaChannelStatus::NonSwitchable { .. } => 1,
            MitocandriaChannelStatus::Adjustable { .. } => 2,
        }
    }

    /// The fixed eight-byte record of this channel.
    pub open spec fn spec_bytes(self) -> Seq<u8> {
        match self {
            MitocandriaChannelStatus::Switchable { enabled, current } => seq![
                0u8,
                (if enabled {
                    1u8
                } else {
                    0u8
                }),
                0u8,
                0u8,
                0u8,
                0u8,
                ((current / 256) as u8),
                ((current % 256) as u8),
            ],
            MitocandriaChannelStatus::NonSwitchable { current } => seq![
                1u8,
                0u8,
                0u8,
                0u8,
                0u8,
                0u8,
                ((current / 256) as u8),
                ((current % 256) as u8),
            ],
            MitocandriaChannelStatus::Adjustable {
                enabled,
                voltage,
                voltage_setpoint,
                current,
            } => seq![
                2u8,
                (if enabled {
                    1u8
                } else {
                    0u8
                }),
                ((voltage / 256) as u8),
                ((voltage % 256) as u8),
                ((voltage_setpoint / 256) as u8),
                ((voltage_setpoint % 256) as u8),
                ((current / 256) as u8),
                ((current % 256) as u8),
            ],
        }
    }

    /// What decoding yields from the record starting at `off` in `b`.
    pub open spec fn spec_read_at(b: Seq<u8>, off: int) -> Result<
        MitocandriaChannelStatus,
        MarshalError,
    > {
        if b.len() < off + 1 {
            Err(MarshalError::BufferExhausted)
        } else if b[off] != 0 && b[off] != 1 && b[off] != 2 {
            Err(MarshalError::NoMatch)
        } else if b.len() < off + 8 {
            Err(MarshalError::BufferExhausted)
        } else if b[off] == 0 {
            Ok(
                MitocandriaChannelStatus::Switchable {
                    enabled: b[off + 1] != 0,
                    current: be16_at(b, off + 6),
                },
            )
        } else if b[off] == 1 {
            Ok(MitocandriaChannelStatus::NonSwitchable { current: be16_at(b, off + 6) })
        } else {
            Ok(
                MitocandriaChannelStatus::Adjustable {
                    enabled: b[off + 1] != 0,
                    voltage: be16_at(b, off + 2),
                    voltage_setpoint: be16_at(b, off + 4),
                    current: be16_at(b, off + 6),
                },
            )
        }
    }

    /// Append the eight-byte record.
    pub fn write(&self, w: &mut BitWriter)
        requires
            old(w).inv(),
            old(w).aligned(),
        ensures
            final(w).inv(),
            final(w).aligned(),
            final(w).bytes() == old(w).bytes() + self.spec_bytes(),
    {
        match self {
            MitocandriaChannelStatus::Switchable { enabled, current } => {
                w.write_u8(0);
                w.write_u8(
                    if *enabled {
                        1
                    } else {
                        0
                    },
                );
                w.write_u16_be(0);
                w.write_u16_be(0);
                w.write_u16_be(*current);
            },
            MitocandriaChannelStatus::NonSwitchable { current } => {
                w.write_u8(1);
                w.write_u8(0);
                w.write_u16_be(0);
                w.write_u16_be(0);
                w.write_u16_be(*current);
            },
            MitocandriaChannelStatus::Adjustable {
                enabled,
                voltage,
                voltage_setpoint,
                current,
            } => {
                w.write_u8(2);
                w.write_u8(
                    if *enabled {
                        1
                    } else {
                        0
                    },
                );
                w.write_u16_be(*voltage);
                w.write_u16_be(*voltage_setpoint);
                w.write_u16_be(*current);
            },
        }
        proof {
            assert(w.bytes() =~= old(w).bytes() + self.spec_bytes());
        }
    }

    /// Decode one eight-byte record.
    pub fn read(r: &mut BitReader) -> (res: Result<MitocandriaChannelStatus, MarshalError>)
        requires
            old(r).inv(),
            old(r).aligned(),
        ensures
            final(r).inv(),
            final(r).aligned(),
            final(r).data() == old(r).data(),
            res == MitocandriaChannelStatus::spec_read_at(old(r).rest(), 0),
            res is Ok ==> final(r).pos() == old(r).pos() + 8,
    {
        let ghost b = old(r).rest();
        let tag = r.read_u8()?;
        proof {
            assert(tag == b[0]);
        }
        if tag != 0 && tag != 1 && tag != 2 {
            return Err(MarshalError::NoMatch);
        }
        let en = r.read_u8()?;
        let voltage = r.read_u16_be()?;
        let setpoint = r.read_u16_be()?;
        let current = r.read_u16_be()?;
        proof {
            assert(en == b[1]);
            lemma_u16_be_recompose(voltage);
            assert(b[2] == u16_be_bytes(voltage)[0]);
            assert(b[3] == u16_be_bytes(voltage)[1]);
            lemma_u16_be_recompose(setpoint);
            assert(b[4] == u16_be_bytes(setpoint)[0]);
            assert(b[5] == u16_be_bytes(setpoint)[1]);
            lemma_u16_be_recompose(current);
            assert(b[6] == u16_be_bytes(current)[0]);
            assert(b[7] == u16_be_bytes(current)[1]);
        }
        if tag == 0 {
            Ok(MitocandriaChannelStatus::Switchable { enabled: en != 0, current })
        } else if tag == 1 {
            Ok(MitocandriaChannelStatus::NonSwitchable { current })
        } else {
            Ok(
                MitocandriaChannelStatus::Adjustable {
                    enabled: en != 0,
                    voltage,
                    voltage_setpoint: setpoint,
                    current,
                },
            )
        }
    }
}

/// Decoding an encoded channel record, at its offset in a larger buffer,
/// restores the channel.
pub proof fn lemma_channel_round_trip(c: MitocandriaChannelStatus, b: Seq<u8>, off: int)
    requires
        0 <= off,
        b.len() >= off + 8,
        b.subrange(off, off + 8) == c.spec_bytes(),
    ensures
        MitocandriaChannelStatus::spec_read_at(b, off) == Ok::<
            MitocandriaChannelStatus,
            MarshalError,
        >(c),
{
    let cb = c.spec_bytes();
    assert(cb.len() == 8);
    let sb = b.subrange(off, off + 8);
    assert(b[off] == cb[0]) by {
        assert(sb[0] == cb[0]);
    }
    assert(b[off + 1] == cb[1]) by {
        assert(sb[1] == cb[1]);
    }
    assert(b[off + 2] == cb[2]) by {
        assert(sb[2] == cb[2]);
    }
    assert(b[off + 3] == cb[3]) by {
        assert(sb[3] == cb[3]);
    }
    assert(b[off + 4] == cb[4]) by {
        assert(sb[4] == cb[4]);
    }
    assert(b[off + 5] == cb[5]) by {
        assert(sb[5] == cb[5]);
    }
    assert(b[off + 6] == cb[6]) by {
        assert(sb[6] == cb[6]);
    }
    assert(b[off + 7] == cb[7]) by {
        assert(sb[7] == cb[7]);
    }
    match c {
        MitocandriaChannelStatus::Switchable { enabled, current } => {
            lemma_u16_be_recompose(current);
            assert(be16_at(b, off + 6) == current);
        },
        MitocandriaChannelStatus::NonSwitchable { current } => {
            lemma_u16_be_recompose(current);
            assert(be16_at(b, off + 6) == current);
        },
        MitocandriaChannelStatus::Adjustable { enabled, voltage, voltage_setpoint, current } => {
            lemma_u16_be_recompose(voltage);
            lemma_u16_be_recompose(voltage_setpoint);
            lemma_u16_be_recompose(current);
            assert(be16_at(b, off + 2) == voltage);
            assert(be16_at(b, off + 4) == voltage_setpoint);
            assert(be16_at(b, off + 6) == current);
        },
    }
}

/// The periodic status frame: five channel records.
#[derive(Debug, Clone, PartialEq, Eq)]
pub struct MitocandriaStatusFrame {
    pub channels: Vec<MitocandriaChannelStatus>,
}

/// The mathematical model of [`MitocandriaStatusFrame`].
pub struct MitocandriaStatusFrameV {
    pub channels: Seq<MitocandriaChannelStatus>,
}

impl View for MitocandriaStatusFrame {
    type V = MitocandriaStatusFrameV;

    open spec fn view(&self) -> MitocandriaStatusFrameV {
        MitocandriaStatusFrameV { channels: self.channels@ }
    }
}

impl MitocandriaStatusFrameV {
    /// The module reports exactly five channels.
    pub open spec fn wf(self) -> bool {
        self.channels.len() == 5
    }

    pub open spec fn spec_bytes(self) -> Seq<u8> {
        self.channels[0].spec_bytes() + self.channels[1].spec_bytes()
            + self.channels[2].spec_bytes() + self.channels[3].spec_bytes()
            + self.channels[4].spec_bytes()
    }
}

/// Ask a switchable channel on or off.
#[derive(Debug, Clone, Copy, PartialEq, Eq, Structural)]
pub struct MitocandriaSwitchableChannelRequest {
    pub channel: u8,
    pub enabled: bool,
}

/// Ask an adjustable channel on or off at a voltage.
#[derive(Debug, Clone, Copy, PartialEq, Eq, Structural)]
pub struct MitocandriaAdjustableChannelRequest {
    pub channel: u8,
    pub enabled: bool,
    pub voltage: u16,
}

/// Channel commands, selected by `api_index`, each in request/ack shape.
#[derive(Debug, Clone, Copy, PartialEq, Eq)]
pub enum MitocandriaChannelRequest {
    SetSwitchableChannel(Request<MitocandriaSwitchableChannelRequest, ()>),
    SetAdjustableChannel(Request<MitocandriaAdjustableChannelRequest, ()>),
}

impl View for MitocandriaChannelRequest {
    type V = MitocandriaChannelRequest;

    open spec fn view(&self) -> MitocandriaChannelRequest {
        *self
    }
}

impl MitocandriaChannelRequest {
    pub open spec fn spec_tag(self) -> u8 {
        match self {
            MitocandriaChannelRequest::SetSwitchableChannel(_) => 0,
            MitocandriaChannelRequest::SetAdjustableChannel(_) => 1,
        }
    }

    pub open spec fn spec_is_ack(self) -> bool {
        match self {
            MitocandriaChannelRequest::SetSwitchableChannel(r) => r is Ack,
            MitocandriaChannelRequest::SetAdjustableChannel(r) => r is Ack,
        }
    }

    pub open spec fn spec_bytes(self) -> Seq<u8> {
        match self {
            MitocandriaChannelRequest::SetSwitchableChannel(r) => match r {
                Request::Request(q) => seq![
                    q.channel,
                    (if q.enabled {
                        1u8
                    } else {
                        0u8
                    }),
                ],
                Request::Ack(_) => Seq::<u8>::empty(),
            },
            MitocandriaChannelRequest::SetAdjustableChannel(r) => match r {
                Request::Request(q) => seq![
                    q.channel,
                    (if q.enabled {
                        1u8
                    } else {
                        0u8
                    }),
                ] + u16_be_bytes(q.voltage),
                Request::Ack(_) => Seq::<u8>::empty(),
            },
        }
    }

    pub open spec fn spec_read(b: Seq<u8>, ctx: GrappleMessageId) -> Result<
        MitocandriaChannelRequest,
        MarshalError,
    > {
        if ctx.api_index == 0 {
            if ctx.ack_flag {
                Ok(MitocandriaChannelRequest::SetSwitchableChannel(Request::Ack(())))
            } else if b.len() < 2 {
                Err(MarshalError::BufferExhausted)
            } else {
                Ok(
                    MitocandriaChannelRequest::SetSwitchableChannel(
                        Request::Request(
                            MitocandriaSwitchableChannelRequest {
                                channel: b[0],
                                enabled: b[1] != 0,
                            },
                        ),
                    ),
                )
            }
        } else if ctx.api_index == 1 {
            if ctx.ack_flag {
                Ok(MitocandriaChannelRequest::SetAdjustableChannel(Request::Ack(())))
            } else if b.len() < 2 {
                Err(MarshalError::BufferExhausted)
            } else if b.len() < 4 {
                Err(MarshalError::BufferExhausted)
            } else {
                Ok(
                    MitocandriaChannelRequest::SetAdjustableChannel(
                        Request::Request(
                            MitocandriaAdjustableChannelRequest {
                                channel: b[0],
                                enabled: b[1] != 0,
                                voltage: be16_at(b, 2),
                            },
                        ),
                    ),
                )
            }
        } else {
            Err(MarshalError::NoMatch)
        }
    }
}

/// Power-distribution operations, selected by `api_class`.
#[derive(Debug, Clone, PartialEq, Eq)]
pub enum MitocandriaMessage {
    StatusFrame(MitocandriaStatusFrame),
    ChannelRequest(MitocandriaChannelRequest),
}

/// The mathematical model of [`MitocandriaMessage`].
pub enum MitocandriaMessageV {
    StatusFrame(MitocandriaStatusFrameV),
    ChannelRequest(MitocandriaChannelRequest),
}

impl View for MitocandriaMessage {
    type V = MitocandriaMessageV;

    open spec fn view(&self) -> MitocandriaMessageV {
        match self {
            MitocandriaMessage::StatusFrame(f) => MitocandriaMessageV::StatusFrame(f@),
            MitocandriaMessage::ChannelRequest(q) => MitocandriaMessageV::ChannelRequest(*q),
        }
    }
}

impl MitocandriaMessageV {
    pub open spec fn spec_tag(self) -> u8 {
        match self {
            MitocandriaMessageV::StatusFrame(_) => 0,
            MitocandriaMessageV::ChannelRequest(_) => 1,
        }
    }

    pub open spec fn wf(self) -> bool {
        match self {
            MitocandriaMessageV::StatusFrame(f) => f.wf(),
            MitocandriaMessageV::ChannelRequest(_) => true,
        }
    }

    /// The operation tag lands in `api_class`; channel commands place their
    /// own tag in `api_index` and drive the ack bit.
    pub open spec fn spec_update(self, id: GrappleMessageId) -> GrappleMessageId {
        match self {
            MitocandriaMessageV::StatusFrame(_) => GrappleMessageId {
                api_class: self.spec_tag(),
                ..id
            },
            MitocandriaMessageV::ChannelRequest(q) => GrappleMessageId {
                api_class: self.spec_tag(),
                api_index: q.spec_tag(),
                ack_flag: q.spec_is_ack(),
                ..id
            },
        }
    }

    pub open spec fn spec_bytes(self) -> Seq<u8> {
        match self {
            MitocandriaMessageV::StatusFrame(f) => f.spec_bytes(),
            MitocandriaMessageV::ChannelRequest(q) => q.spec_bytes(),
        }
    }

    pub open spec fn spec_read(b: Seq<u8>, ctx: GrappleMessageId) -> Result<
        MitocandriaMessageV,
        MarshalError,
    > {
        if ctx.api_class == 0 {
            match MitocandriaChannelStatus::spec_read_at(b, 0) {
                Err(e) => Err(e),
                Ok(c0) => match MitocandriaChannelStatus::spec_read_at(b, 8) {
                    Err(e) => Err(e),
                    Ok(c1) => match MitocandriaChannelStatus::spec_read_at(b, 16) {
                        Err(e) => Err(e),
                        Ok(c2) => match MitocandriaChannelStatus::spec_read_at(b, 24) {
                            Err(e) => Err(e),
                            Ok(c3) => match MitocandriaChannelStatus::spec_read_at(b, 32) {
                                Err(e) => Err(e),
                                Ok(c4) => Ok(
                                    MitocandriaMessageV::StatusFrame(
                                        MitocandriaStatusFrameV {
                                            channels: seq![c0, c1, c2, c3, c4],
                                        },
                                    ),
                                ),
                            },
                        },
                    },
                },
            }
        } else if ctx.api_class == 1 {
            match MitocandriaChannelRequest::spec_read(b, ctx) {
                Ok(q) => Ok(MitocandriaMessageV::ChannelRequest(q)),
                Err(e) => Err(e),
            }
        } else {
            Err(MarshalError::NoMatch)
        }
    }
}

impl MitocandriaMessage {
    pub fn tag(&self) -> (t: u8)
        ensures
            t == self@.spec_tag(),
    {
        match self {
            MitocandriaMessage::StatusFrame(_) => 0,
            MitocandriaMessage::ChannelRequest(_) => 1,
        }
    }

    /// The module reports exactly five channels.
    pub fn check_wf(&self) -> (r: bool)
        ensures
            r == self@.wf(),
    {
        match self {
            MitocandriaMessage::StatusFrame(f) => f.channels.len() == 5,
            MitocandriaMessage::ChannelRequest(_) => true,
        }
    }

    /// Write the tags and the ack bit into the identifier.
    pub fn update(&self, id: &mut GrappleMessageId)
        ensures
            *final(id) == self@.spec_update(*old(id)),
    {
        id.api_class = self.tag();
        match self {
            MitocandriaMessage::StatusFrame(_) => {},
            MitocandriaMessage::ChannelRequest(q) => {
                match q {
                    MitocandriaChannelRequest::SetSwitchableChannel(r) => {
                        id.api_index = 0;
                        id.ack_flag = r matches Request::Ack(_);
                    },
                    MitocandriaChannelRequest::SetAdjustableChannel(r) => {
                        id.api_index = 1;
                        id.ack_flag = r matches Request::Ack(_);
                    },
                }
            },
        }
    }

    /// Append the body bytes.
    pub fn write(&self, w: &mut BitWriter)
        requires
            self@.wf(),
            old(w).inv(),
            old(w).aligned(),
        ensures
            final(w).inv(),
            final(w).aligned(),
            final(w).bytes() == old(w).bytes() + self@.spec_bytes(),
    {
        match self {
            MitocandriaMessage::StatusFrame(f) => {
                f.channels[0].write(w);
                f.channels[1].write(w);
                f.channels[2].write(w);
                f.channels[3].write(w);
                f.channels[4].write(w);
                proof {
                    assert(w.bytes() =~= old(w).bytes() + self@.spec_bytes());
                }
            },
            MitocandriaMessage::ChannelRequest(q) => {
                match q {
                    MitocandriaChannelRequest::SetSwitchableChannel(r) => {
                        match r {
                            Request::Request(rq) => {
                                w.write_u8(rq.channel);
                                w.write_u8(
                                    if rq.enabled {
                                        1
                                    } else {
                                        0
                                    },
                                );
                                proof {
                                    assert(w.bytes() =~= old(w).bytes() + self@.spec_bytes());
                                }
                            },
                            Request::Ack(_) => {
                                proof {
                                    assert(w.bytes() =~= old(w).bytes() + self@.spec_bytes());
                                }
                            },
                        }
                    },
                    MitocandriaChannelRequest::SetAdjustableChannel(r) => {
                        match r {
                            Request::Request(rq) => {
                                w.write_u8(rq.channel);
                                w.write_u8(
                                    if rq.enabled {
                                        1
                                    } else {
                                        0
                                    },
                                );
                                w.write_u16_be(rq.voltage);
                                proof {
                                    assert(w.bytes() =~= old(w).bytes() + self@.spec_bytes());
                                }
                            },
                            Request::Ack(_) => {
                                proof {
                                    assert(w.bytes() =~= old(w).bytes() + self@.spec_bytes());
                                }
                            },
                        }
                    },
                }
            },
        }
    }

    /// Decode the operation selected by `ctx` from the remainder of the
    /// buffer.
    pub fn read(r: &mut BitReader, ctx: GrappleMessageId) -> (res: Result<
        MitocandriaMessage,
        MarshalError,
    >)
        requires
            old(r).inv(),
            old(r).aligned(),
        ensures
            final(r).inv(),
            final(r).data() == old(r).data(),
            res_view(res) == MitocandriaMessageV::spec_read(old(r).rest(), ctx),
    {
        let ghost b = old(r).rest();
        if ctx.api_class == 0 {
            let c0 = MitocandriaChannelStatus::read(r)?;
            proof {
                lemma_spec_read_at_shift(old(r).data(), old(r).pos() as int, 0);
            }
            let c1 = MitocandriaChannelStatus::read(r)?;
            proof {
                lemma_spec_read_at_shift(old(r).data(), old(r).pos() as int, 8);
            }
            let c2 = MitocandriaChannelStatus::read(r)?;
            proof {
                lemma_spec_read_at_shift(old(r).data(), old(r).pos() as int, 16);
            }
            let c3 = MitocandriaChannelStatus::read(r)?;
            proof {
                lemma_spec_read_at_shift(old(r).data(), old(r).pos() as int, 24);
            }
            let c4 = MitocandriaChannelStatus::read(r)?;
            let mut channels: Vec<MitocandriaChannelStatus> = Vec::new();
            channels.push(c0);
            channels.push(c1);
            channels.push(c2);
            channels.push(c3);
            channels.push(c4);
            proof {
                assert(channels@ =~= seq![c0, c1, c2, c3, c4]);
            }
            Ok(MitocandriaMessage::StatusFrame(MitocandriaStatusFrame { channels }))
        } else if ctx.api_class == 1 {
            if ctx.api_index == 0 {
                if ctx.ack_flag {
                    Ok(
                        MitocandriaMessage::ChannelRequest(
                            MitocandriaChannelRequest::SetSwitchableChannel(Request::Ack(())),
                        ),
                    )
                } else {
                    let channel = r.read_u8()?;
                    let en = r.read_u8()?;
                    proof {
                        assert(channel == b[0]);
                        assert(en == b[1]);
                    }
                    Ok(
                        MitocandriaMessage::ChannelRequest(
                            MitocandriaChannelRequest::SetSwitchableChannel(
                                Request::Request(
                                    MitocandriaSwitchableChannelRequest {
                                        channel,
                                        enabled: en != 0,
                                    },
                                ),
                            ),
                        ),
                    )
                }
            } else if ctx.api_index == 1 {
                if ctx.ack_flag {
                    Ok(
                        MitocandriaMessage::ChannelRequest(
                            MitocandriaChannelRequest::SetAdjustableChannel(Request::Ack(())),
                        ),
                    )
                } else {
                    let channel = r.read_u8()?;
                    let en = r.read_u8()?;
                    let voltage = r.read_u16_be()?;
                    proof {
                        assert(channel == b[0]);
                        assert(en == b[1]);
                        lemma_u16_be_recompose(voltage);
                        assert(b[2] == u16_be_bytes(voltage)[0]);
                        assert(b[3] == u16_be_bytes(voltage)[1]);
                    }
                    Ok(
                        MitocandriaMessage::ChannelRequest(
                            MitocandriaChannelRequest::SetAdjustableChannel(
                                Request::Request(
                                    MitocandriaAdjustableChannelRequest {
                                        channel,
                                        enabled: en != 0,
                                        voltage,
                                    },
                                ),
                            ),
                        ),
                    )
                }
            } else {
                Err(MarshalError::NoMatch)
            }
        } else {
            Err(MarshalError::NoMatch)
        }
    }
}

/// Reading a channel record `off` bytes into the remainder that starts at
/// `pos` is reading it at the start of the remainder that starts at
/// `pos + off`.
proof fn lemma_spec_read_at_shift(data: Seq<u8>, pos: int, off: int)
    requires
        0 <= pos,
        0 <= off,
        pos + off <= data.len(),
    ensures
        MitocandriaChannelStatus::spec_read_at(data.subrange(pos, data.len() as int), off)
            == MitocandriaChannelStatus::spec_read_at(
            data.subrange(pos + off, data.len() as int),
            0,
        ),
{
    let b1 = data.subrange(pos, data.len() as int);
    let b2 = data.subrange(pos + off, data.len() as int);
    assert(forall|k: int| 0 <= k < b2.len() ==> b1[off + k] == #[trigger] b2[k]);
}

/// Decoding an encoded power-distribution operation under the identifier
/// the marshalling layer writes restores the operation exactly.
pub proof fn lemma_mitocandria_round_trip(m: MitocandriaMessageV, ctx: GrappleMessageId)
    requires
        m.wf(),
        ctx.api_class == m.spec_tag(),
        m matches MitocandriaMessageV::ChannelRequest(q) ==> ctx.api_index == q.spec_tag()
            && ctx.ack_flag == q.spec_is_ack(),
    ensures
        MitocandriaMessageV::spec_read(m.spec_bytes(), ctx) == Ok::<
            MitocandriaMessageV,
            MarshalError,
        >(m),
{
    let b = m.spec_bytes();
    match m {
        MitocandriaMessageV::StatusFrame(f) => {
            lemma_status_frame_round_trip(f, ctx);
        },
        MitocandriaMessageV::ChannelRequest(q) => {
            match q {
                MitocandriaChannelRequest::SetSwitchableChannel(r) => {
                    match r {
                        Request::Request(_) => {},
                        Request::Ack(a) => {
                            assert(Request::Ack::<MitocandriaSwitchableChannelRequest, ()>(a)
                                == Request::Ack::<MitocandriaSwitchableChannelRequest, ()>(()));
                        },
                    }
                },
                MitocandriaChannelRequest::SetAdjustableChannel(r) => {
                    match r {
                        Request::Request(rq) => {
                            assert(b[2] == u16_be_bytes(rq.voltage)[0]);
                            assert(b[3] == u16_be_bytes(rq.voltage)[1]);
                            lemma_u16_be_recompose(rq.voltage);
                            assert(be16_at(b, 2) == rq.voltage);
                        },
                        Request::Ack(a) => {
                            assert(Request::Ack::<MitocandriaAdjustableChannelRequest, ()>(a)
                                == Request::Ack::<MitocandriaAdjustableChannelRequest, ()>(()));
                        },
                    }
                },
            }
        },
    }
}

/// Round trip of the five-channel status frame.
#[verifier::spinoff_prover]
proof fn lemma_status_frame_round_trip(f: MitocandriaStatusFrameV, ctx: GrappleMessageId)
    requires
        f.wf(),
        ctx.api_class == 0,
    ensures
        MitocandriaMessageV::spec_read(
            MitocandriaMessageV::StatusFrame(f).spec_bytes(),
            ctx,
        ) == Ok::<MitocandriaMessageV, MarshalError>(MitocandriaMessageV::StatusFrame(f)),
{
    let b = MitocandriaMessageV::StatusFrame(f).spec_bytes();
    let c0 = f.channels[0];
    let c1 = f.channels[1];
    let c2 = f.channels[2];
    let c3 = f.channels[3];
    let c4 = f.channels[4];
    assert(c0.spec_bytes().len() == 8);
    assert(c1.spec_bytes().len() == 8);
    assert(c2.spec_bytes().len() == 8);
    assert(c3.spec_bytes().len() == 8);
    assert(c4.spec_bytes().len() == 8);
    assert(b.len() == 40);
    assert(b.subrange(0, 8) =~= c0.spec_bytes());
    assert(b.subrange(8, 16) =~= c1.spec_bytes());
    assert(b.subrange(16, 24) =~= c2.spec_bytes());
    assert(b.subrange(24, 32) =~= c3.spec_bytes());
    assert(b.subrange(32, 40) =~= c4.spec_bytes());
    lemma_channel_round_trip(c0, b, 0);
    lemma_channel_round_trip(c1, b, 8);
    lemma_channel_round_trip(c2, b, 16);
    lemma_channel_round_trip(c3, b, 24);
    lemma_channel_round_trip(c4, b, 32);
    assert(f.channels =~= seq![c0, c1, c2, c3, c4]);
}

} // verus!
