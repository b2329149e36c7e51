//! Distance sensor operations: the measurement status frame and the
//! configuration requests, each of the latter in request/ack shape.

use vstd::prelude::*;

verus! {

use crate::Validate;
use crate::bits::{
    BitReader, BitWriter, MarshalError, be16_at, le16_at, u16_be_bytes, u16_le_bytes,
    lemma_u16_be_recompose, lemma_u16_le_recompose,
};
use crate::grapple::{GrappleMessageId, Request};
use crate::grapple::errors::{GrappleError, GrappleErrorV, err_view};
use crate::res_view;
use vstd::arithmetic::power2::lemma2_to64;
use vstd::arithmetic::div_mod::lemma_fundamental_div_mod_converse;

/// A four-bit region-of-interest coordinate, stored offset by one on the
/// wire (encoded value 0 means 1).
#[derive(Debug, Clone, Copy, PartialEq, Eq, Structural)]
pub struct LaserCanRoiU4(pub u8);

/// Region of interest of the sensor: centre and extent on a 16x16 grid.
#[derive(Debug, Clone, Copy, PartialEq, Eq, Structural)]
pub struct LaserCanRoi {
    pub x: LaserCanRoiU4,
    pub y: LaserCanRoiU4,
    pub w: LaserCanRoiU4,
    pub h: LaserCanRoiU4,
}

impl LaserCanRoi {
    /// Fits the request body: each coordinate in 1..=16.
    pub open spec fn wf_u4(self) -> bool {
        1 <= self.x.0 <= 16 && 1 <= self.y.0 <= 16 && 1 <= self.w.0 <= 16 && 1 <= self.h.0 <= 16
    }

    /// Fits the measurement frame: centre raw in four bits, extent offset
    /// by four.
    pub open spec fn wf_meas(self) -> bool {
        self.x.0 < 16 && self.y.0 < 16 && 4 <= self.w.0 < 20 && 4 <= self.h.0 < 20
    }
}

impl Validate for LaserCanRoi {
    open spec fn spec_validate(&self) -> Result<(), GrappleErrorV> {
        if self.w.0 % 2 != 0 || self.h.0 % 2 != 0 {
            Err(GrappleErrorV::ParameterOutOfBounds("LaserCanRoi: width and height must be even"@))
        } else if self.x.0 - self.w.0 / 2 < 0 || self.x.0 + self.w.0 / 2 > 16 || self.y.0 - self.h.0
            / 2 < 0 || self.y.0 + self.h.0 / 2 > 16 {
            Err(GrappleErrorV::ParameterOutOfBounds("LaserCanRoi: out of bounds"@))
        } else {
            Ok(())
        }
    }

    fn validate(&self) -> (r: Result<(), GrappleError>) {
        if self.w.0 % 2 != 0 || self.h.0 % 2 != 0 {
            Err(
                GrappleError::ParameterOutOfBounds(
                    "LaserCanRoi: width and height must be even".to_owned(),
                ),
            )
        } else {
            let hw = self.w.0 / 2;
            let hh = self.h.0 / 2;
            if (self.x.0 as i32) - (hw as i32) < 0 || (self.x.0 as i32) + (hw as i32) > 16 || (
            self.y.0 as i32) - (hh as i32) < 0 || (self.y.0 as i32) + (hh as i32) > 16 {
                Err(GrappleError::ParameterOutOfBounds("LaserCanRoi: out of bounds".to_owned()))
            } else {
                Ok(())
            }
        }
    }
}

/// Ranging mode of the sensor: one identifier bit on the wire.
#[derive(Debug, Clone, Copy, PartialEq, Eq, Structural)]
pub enum LaserCanRangingMode {
    Short,
    Long,
}

impl LaserCanRangingMode {
    pub open spec fn spec_bit(self) -> u8 {
        match self {
            LaserCanRangingMode::Short => 0,
            LaserCanRangingMode::Long => 1,
        }
    }

    pub fn bit(&self) -> (b: u8)
        ensures
            b == self.spec_bit(),
    {
        match self {
            LaserCanRangingMode::Short => 0,
            LaserCanRangingMode::Long => 1,
        }
    }

    pub open spec fn spec_from_bit(b: u8) -> LaserCanRangingMode {
        if b % 2 == 1 {
            LaserCanRangingMode::Long
        } else {
            LaserCanRangingMode::Short
        }
    }
}

/// Sensor timing budget in milliseconds; the wire tag is the value itself,
/// in seven bits.
#[derive(Debug, Clone, Copy, PartialEq, Eq, Structural)]
pub enum LaserCanTimingBudget {
    TB20ms,
    TB33ms,
    TB50ms,
    TB100ms,
}

impl LaserCanTimingBudget {
    pub open spec fn spec_tag(self) -> u8 {
        match self {
            LaserCanTimingBudget::TB20ms => 20,
            LaserCanTimingBudget::TB33ms => 33,
            LaserCanTimingBudget::TB50ms => 50,
            LaserCanTimingBudget::TB100ms => 100,
        }
    }

    pub fn tag(&self) -> (t: u8)
        ensures
            t == self.spec_tag(),
    {
        match self {
            LaserCanTimingBudget::TB20ms => 20,
            LaserCanTimingBudget::TB33ms => 33,
            LaserCanTimingBudget::TB50ms => 50,
            LaserCanTimingBudget::TB100ms => 100,
        }
    }

    pub open spec fn spec_from_tag(t: u8) -> Option<LaserCanTimingBudget> {
        if t == 20 {
            Some(LaserCanTimingBudget::TB20ms)
        } else if t == 33 {
            Some(LaserCanTimingBudget::TB33ms)
        } else if t == 50 {
            Some(LaserCanTimingBudget::TB50ms)
        } else if t == 100 {
            Some(LaserCanTimingBudget::TB100ms)
        } else {
            None
        }
    }

    pub fn from_tag(t: u8) -> (r: Option<LaserCanTimingBudget>)
        ensures
            r == LaserCanTimingBudget::spec_from_tag(t),
    {
        if t == 20 {
            Some(LaserCanTimingBudget::TB20ms)
        } else if t == 33 {
            Some(LaserCanTimingBudget::TB33ms)
        } else if t == 50 {
            Some(LaserCanTimingBudget::TB50ms)
        } else if t == 100 {
            Some(LaserCanTimingBudget::TB100ms)
        } else {
            None
        }
    }
}

/// One measurement status frame: exactly eight payload bytes.
#[derive(Debug, Clone, Copy, PartialEq, Eq, Structural)]
pub struct LaserCanMeasurement {
    pub status: u8,
    pub distance_mm: u16,
    pub ambient: u16,
    pub mode: LaserCanRangingMode,
    pub budget: LaserCanTimingBudget,
    pub roi: LaserCanRoi,
}

/// Distance sensor operations, selected by `api_class`.
#[derive(Debug, Clone, Copy, PartialEq, Eq)]
pub enum LaserCanMessage {
    Measurement(LaserCanMeasurement),
    SetRange(Request<LaserCanRangingMode, ()>),
    SetRoi(Request<LaserCanRoi, ()>),
    SetTimingBudget(Request<LaserCanTimingBudget, ()>),
    SetLedThreshold(Request<u16, ()>),
}

impl View for LaserCanMessage {
    type V = LaserCanMessage;

    open spec fn view(&self) -> LaserCanMessage {
        *self
    }
}

impl LaserCanMessage {
    /// The `api_class` value that selects this operation.
    pub open spec fn spec_tag(self) -> u8 {
        match self {
            LaserCanMessage::Measurement(_) => 0,
            LaserCanMessage::SetRange(_) => 1,
            LaserCanMessage::SetRoi(_) => 2,
            LaserCanMessage::SetTimingBudget(_) => 3,
            LaserCanMessage::SetLedThreshold(_) => 4,
        }
    }

    /// Whether this operation is in its acknowledgement shape.
    pub open spec fn spec_is_ack(self) -> bool {
        match self {
            LaserCanMessage::Measurement(_) => false,
            LaserCanMessage::SetRange(r) => r is Ack,
            LaserCanMessage::SetRoi(r) => r is Ack,
            LaserCanMessage::SetTimingBudget(r) => r is Ack,
            LaserCanMessage::SetLedThreshold(r) => r is Ack,
        }
    }

    /// Packed fields fit their bit widths.
    pub open spec fn wf(self) -> bool {
        match self {
            LaserCanMessage::Measurement(m) => m.roi.wf_meas(),
            LaserCanMessage::SetRoi(Request::Request(roi)) => roi.wf_u4(),
            _ => true,
        }
    }

    /// The operation tag lands in `api_class`; request/ack operations drive
    /// the ack bit.
    pub open spec fn spec_update(self, id: GrappleMessageId) -> GrappleMessageId {
        match self {
            LaserCanMessage::Measurement(_) => GrappleMessageId {
                api_class: self.spec_tag(),
                ..id
            },
            _ => GrappleMessageId {
                api_class: self.spec_tag(),
                ack_flag: self.spec_is_ack(),
                ..id
            },
        }
    }

    /// The body bytes of the operation.  In the measurement frame the
    /// distances are little-endian, mode and budget share a byte, and the
    /// region extent travels offset by four; a region in a configuration
    /// request travels as four nibbles, each offset by one.
    pub open spec fn spec_bytes(self) -> Seq<u8> {
        match self {
            LaserCanMessage::Measurement(m) => u16_le_bytes(m.distance_mm).insert(
                0,
                m.status,
            ) + u16_le_bytes(m.ambient) + seq![
                ((m.mode.spec_bit() * 128 + m.budget.spec_tag()) as u8),
                ((m.roi.x.0 % 16) * 16 + (m.roi.y.0 % 16)) as u8,
                ((((m.roi.w.0 - 4) % 16) * 16 + ((m.roi.h.0 - 4) % 16)) as u8),
            ],
            LaserCanMessage::SetRange(r) => match r {
                Request::Request(mode) => seq![(mode.spec_bit() * 128) as u8],
                Request::Ack(_) => Seq::<u8>::empty(),
            },
            LaserCanMessage::SetRoi(r) => match r {
                Request::Request(roi) => seq![
                    ((((roi.x.0 - 1) % 16) * 16 + ((roi.y.0 - 1) % 16)) as u8),
                    ((((roi.w.0 - 1) % 16) * 16 + ((roi.h.0 - 1) % 16)) as u8),
                ],
                Request::Ack(_) => Seq::<u8>::empty(),
            },
            LaserCanMessage::SetTimingBudget(r) => match r {
                Request::Request(budget) => seq![((budget.spec_tag() * 2) as u8)],
                Request::Ack(_) => Seq::<u8>::empty(),
            },
            LaserCanMessage::SetLedThreshold(r) => match r {
                Request::Request(v) => u16_be_bytes(v),
                Request::Ack(_) => Seq::<u8>::empty(),
            },
        }
    }

    /// What decoding yields from body `b` under identifier `ctx`.
    pub open spec fn spec_read(b: Seq<u8>, ctx: GrappleMessageId) -> Result<
        LaserCanMessage,
        MarshalError,
    > {
        if ctx.api_class == 0 {
            if b.len() < 6 {
                Err(MarshalError::BufferExhausted)
            } else if LaserCanTimingBudget::spec_from_tag((b[5] % 128) as u8) is None {
                Err(MarshalError::NoMatch)
            } else if b.len() < 8 {
                Err(MarshalError::BufferExhausted)
            } else {
                Ok(
                    LaserCanMessage::Measurement(
                        LaserCanMeasurement {
                            status: b[0],
                            distance_mm: le16_at(b, 1),
                            ambient: le16_at(b, 3),
                            mode: LaserCanRangingMode::spec_from_bit(((b[5] / 128) % 2) as u8),
                            budget: LaserCanTimingBudget::spec_from_tag(
                                (b[5] % 128) as u8,
                            )->Some_0,
                            roi: LaserCanRoi {
                                x: LaserCanRoiU4((((b[6] / 16) % 16) as u8)),
                                y: LaserCanRoiU4((b[6] % 16) as u8),
                                w: LaserCanRoiU4((((b[7] / 16) % 16) + 4) as u8),
                                h: LaserCanRoiU4(((b[7] % 16) + 4) as u8),
                            },
                        },
                    ),
                )
            }
        } else if ctx.api_class == 1 {
            if ctx.ack_flag {
                Ok(LaserCanMessage::SetRange(Request::Ack(())))
            } else if b.len() < 1 {
                Err(MarshalError::BufferExhausted)
            } else {
                Ok(
                    LaserCanMessage::SetRange(
                        Request::Request(
                            LaserCanRangingMode::spec_from_bit(((b[0] / 128) % 2) as u8),
                        ),
                    ),
                )
            }
        } else if ctx.api_class == 2 {
            if ctx.ack_flag {
                Ok(LaserCanMessage::SetRoi(Request::Ack(())))
            } else if b.len() < 1 {
                Err(MarshalError::BufferExhausted)
            } else if b.len() < 2 {
                Err(MarshalError::BufferExhausted)
            } else {
                Ok(
                    LaserCanMessage::SetRoi(
                        Request::Request(
                            LaserCanRoi {
                                x: LaserCanRoiU4((((b[0] / 16) % 16) + 1) as u8),
                                y: LaserCanRoiU4(((b[0] % 16) + 1) as u8),
                                w: LaserCanRoiU4((((b[1] / 16) % 16) + 1) as u8),
                                h: LaserCanRoiU4(((b[1] % 16) + 1) as u8),
                            },
                        ),
                    ),
                )
            }
        } else if ctx.api_class == 3 {
            if ctx.ack_flag {
                Ok(LaserCanMessage::SetTimingBudget(Request::Ack(())))
            } else if b.len() < 1 {
                Err(MarshalError::BufferExhausted)
            } else if LaserCanTimingBudget::spec_from_tag(((b[0] / 2) % 128) as u8) is None {
                Err(MarshalError::NoMatch)
            } else {
                Ok(
                    LaserCanMessage::SetTimingBudget(
                        Request::Request(
                            LaserCanTimingBudget::spec_from_tag(((b[0] / 2) % 128) as u8)->Some_0,
                        ),
                    ),
                )
            }
        } else if ctx.api_class == 4 {
            if ctx.ack_flag {
                Ok(LaserCanMessage::SetLedThreshold(Request::Ack(())))
            } else if b.len() < 2 {
                Err(MarshalError::BufferExhausted)
            } else {
                Ok(LaserCanMessage::SetLedThreshold(Request::Request(be16_at(b, 0))))
            }
        } else {
            Err(MarshalError::NoMatch)
        }
    }

    /// The `api_class` value that selects this operation.
    pub fn tag(&self) -> (t: u8)
        ensures
            t == self.spec_tag(),
    {
        match self {
            LaserCanMessage::Measurement(_) => 0,
            LaserCanMessage::SetRange(_) => 1,
            LaserCanMessage::SetRoi(_) => 2,
            LaserCanMessage::SetTimingBudget(_) => 3,
            LaserCanMessage::SetLedThreshold(_) => 4,
        }
    }

    /// Packed fields fit their bit widths.
    pub fn check_wf(&self) -> (r: bool)
        ensures
            r == self.wf(),
    {
        match self {
            LaserCanMessage::Measurement(m) => m.roi.x.0 < 16 && m.roi.y.0 < 16 && 4 <= m.roi.w.0
                && m.roi.w.0 < 20 && 4 <= m.roi.h.0 && m.roi.h.0 < 20,
            LaserCanMessage::SetRoi(Request::Request(roi)) => 1 <= roi.x.0 && roi.x.0 <= 16 && 1
                <= roi.y.0 && roi.y.0 <= 16 && 1 <= roi.w.0 && roi.w.0 <= 16 && 1 <= roi.h.0
                && roi.h.0 <= 16,
            _ => true,
        }
    }

    /// Write the operation tag and the ack bit into the identifier.
    pub fn update(&self, id: &mut GrappleMessageId)
        ensures
            *final(id) == self.spec_update(*old(id)),
    {
        id.api_class = self.tag();
        match self {
            LaserCanMessage::Measurement(_) => {},
            LaserCanMessage::SetRange(r) => {
                id.ack_flag = r matches Request::Ack(_);
            },
            LaserCanMessage::SetRoi(r) => {
                id.ack_flag = r matches Request::Ack(_);
            },
            LaserCanMessage::SetTimingBudget(r) => {
                id.ack_flag = r matches Request::Ack(_);
            },
            LaserCanMessage::SetLedThreshold(r) => {
                id.ack_flag = r matches Request::Ack(_);
            },
        }
    }

    /// Append the body bytes.
    pub fn write(&self, w: &mut BitWriter)
        requires
            self.wf(),
            old(w).inv(),
            old(w).aligned(),
        ensures
            final(w).inv(),
            final(w).aligned(),
            final(w).bytes() == old(w).bytes() + self.spec_bytes(),
    {
        proof {
            lemma2_to64();
        }
        match self {
            LaserCanMessage::Measurement(m) => {
                w.write_u8(m.status);
                w.write_u16_le(m.distance_mm);
                w.write_u16_le(m.ambient);
                w.write_bits(m.mode.bit(), 1);
                w.write_bits(m.budget.tag(), 7);
                w.write_bits((m.roi.x.0) % 16, 4);
                w.write_bits((m.roi.y.0) % 16, 4);
                w.write_bits((m.roi.w.0 - 4) % 16, 4);
                w.write_bits((m.roi.h.0 - 4) % 16, 4);
                proof {
                    assert(w.bytes() =~= old(w).bytes() + self.spec_bytes());
                }
            },
            LaserCanMessage::SetRange(r) => {
                match r {
                    Request::Request(mode) => {
                        w.write_bits(mode.bit(), 1);
                        w.align_byte();
                        proof {
                            assert(w.bytes() =~= old(w).bytes() + self.spec_bytes());
                        }
                    },
                    Request::Ack(_) => {
                        proof {
                            assert(w.bytes() =~= old(w).bytes() + self.spec_bytes());
                        }
                    },
                }
            },
            LaserCanMessage::SetRoi(r) => {
                match r {
                    Request::Request(roi) => {
                        w.write_bits((roi.x.0 - 1) % 16, 4);
                        w.write_bits((roi.y.0 - 1) % 16, 4);
                        w.write_bits((roi.w.0 - 1) % 16, 4);
                        w.write_bits((roi.h.0 - 1) % 16, 4);
                        proof {
                            assert(w.bytes() =~= old(w).bytes() + self.spec_bytes());
                        }
                    },
                    Request::Ack(_) => {
                        proof {
                            assert(w.bytes() =~= old(w).bytes() + self.spec_bytes());
                        }
                    },
                }
            },
            LaserCanMessage::SetTimingBudget(r) => {
                match r {
                    Request::Request(budget) => {
                        w.write_bits(budget.tag(), 7);
                        w.align_byte();
                        proof {
                            assert(w.bytes() =~= old(w).bytes() + self.spec_bytes());
                        }
                    },
                    Request::Ack(_) => {
                        proof {
                            assert(w.bytes() =~= old(w).bytes() + self.spec_bytes());
                        }
                    },
                }
            },
            LaserCanMessage::SetLedThreshold(r) => {
                match r {
                    Request::Request(v) => {
                        w.write_u16_be(*v);
                    },
                    Request::Ack(_) => {
                        proof {
                            assert(w.bytes() =~= old(w).bytes() + self.spec_bytes());
                        }
                    },
                }
            },
        }
    }

    /// Decode the operation selected by `ctx.api_class` from the remainder
    /// of the buffer.
    pub fn read(r: &mut BitReader, ctx: GrappleMessageId) -> (res: Result<
        LaserCanMessage,
        MarshalError,
    >)
        requires
            old(r).inv(),
            old(r).aligned(),
        ensures
            final(r).inv(),
            final(r).data() == old(r).data(),
            res_view(res) == LaserCanMessage::spec_read(old(r).rest(), ctx),
    {
        let ghost b = old(r).rest();
        proof {
            lemma2_to64();
        }
        if ctx.api_class == 0 {
            let status = r.read_u8()?;
            let distance_mm = r.read_u16_le()?;
            let ambient = r.read_u16_le()?;
            let mode_bit = r.read_bits(1)?;
            let budget_tag = r.read_bits(7)?;
            proof {
                assert(status == b[0]);
                assert(le16_at(b, 1) == distance_mm) by {
                    lemma_u16_le_recompose(distance_mm);
                    assert(b[1] == u16_le_bytes(distance_mm)[0]);
                    assert(b[2] == u16_le_bytes(distance_mm)[1]);
                }
                assert(le16_at(b, 3) == ambient) by {
                    lemma_u16_le_recompose(ambient);
                    assert(b[3] == u16_le_bytes(ambient)[0]);
                    assert(b[4] == u16_le_bytes(ambient)[1]);
                }
                assert(mode_bit == (b[5] / 128) % 2);
                assert(budget_tag == b[5] % 128) by {
                    lemma2_to64();
                    lemma_fundamental_div_mod_converse(b[5] as int, 1, b[5] as int, 0);
                }
            }
            let budget = match LaserCanTimingBudget::from_tag(budget_tag) {
                Some(bd) => bd,
                None => {
                    return Err(MarshalError::NoMatch);
                },
            };
            let xy = r.read_u8()?;
            let wh = r.read_u8()?;
            proof {
                assert(xy == b[6]);
                assert(wh == b[7]);
            }
            Ok(
                LaserCanMessage::Measurement(
                    LaserCanMeasurement {
                        status,
                        distance_mm,
                        ambient,
                        mode: if mode_bit % 2 == 1 {
                            LaserCanRangingMode::Long
                        } else {
                            LaserCanRangingMode::Short
                        },
                        budget,
                        roi: LaserCanRoi {
                            x: LaserCanRoiU4((xy / 16) % 16),
                            y: LaserCanRoiU4(xy % 16),
                            w: LaserCanRoiU4(((wh / 16) % 16) + 4),
                            h: LaserCanRoiU4((wh % 16) + 4),
                        },
                    },
                ),
            )
        } else if ctx.api_class == 1 {
            if ctx.ack_flag {
                Ok(LaserCanMessage::SetRange(Request::Ack(())))
            } else {
                let mode_byte = r.read_u8()?;
                proof {
                    assert(mode_byte == b[0]);
                }
                Ok(
                    LaserCanMessage::SetRange(
                        Request::Request(
                            if (mode_byte / 128) % 2 == 1 {
                                LaserCanRangingMode::Long
                            } else {
                                LaserCanRangingMode::Short
                            },
                        ),
                    ),
                )
            }
        } else if ctx.api_class == 2 {
            if ctx.ack_flag {
                Ok(LaserCanMessage::SetRoi(Request::Ack(())))
            } else {
                let xy = r.read_u8()?;
                let wh = r.read_u8()?;
                proof {
                    assert(xy == b[0]);
                    assert(wh == b[1]);
                }
                Ok(
                    LaserCanMessage::SetRoi(
                        Request::Request(
                            LaserCanRoi {
                                x: LaserCanRoiU4(((xy / 16) % 16) + 1),
                                y: LaserCanRoiU4((xy % 16) + 1),
                                w: LaserCanRoiU4(((wh / 16) % 16) + 1),
                                h: LaserCanRoiU4((wh % 16) + 1),
                            },
                        ),
                    ),
                )
            }
        } else if ctx.api_class == 3 {
            if ctx.ack_flag {
                Ok(LaserCanMessage::SetTimingBudget(Request::Ack(())))
            } else {
                let tag_byte = r.read_u8()?;
                proof {
                    assert(tag_byte == b[0]);
                }
                match LaserCanTimingBudget::from_tag((tag_byte / 2) % 128) {
                    Some(budget) => Ok(LaserCanMessage::SetTimingBudget(Request::Request(budget))),
                    None => Err(MarshalError::NoMatch),
                }
            }
        } else if ctx.api_class == 4 {
            if ctx.ack_flag {
                Ok(LaserCanMessage::SetLedThreshold(Request::Ack(())))
            } else {
                let v = r.read_u16_be()?;
                proof {
                    lemma_u16_be_recompose(v);
                    assert(b[0] == u16_be_bytes(v)[0]);
                    assert(b[1] == u16_be_bytes(v)[1]);
                }
                Ok(LaserCanMessage::SetLedThreshold(Request::Request(v)))
            }
        } else {
            Err(MarshalError::NoMatch)
        }
    }
}

impl Validate for LaserCanMessage {
    open spec fn spec_validate(&self) -> Result<(), GrappleErrorV> {
        match self {
            LaserCanMessage::Measurement(_) => Ok(()),
            LaserCanMessage::SetRange(_) => Ok(()),
            LaserCanMessage::SetRoi(r) => match r {
                Request::Request(roi) => roi.spec_validate(),
                Request::Ack(_) => Ok(()),
            },
            LaserCanMessage::SetTimingBudget(_) => Ok(()),
            LaserCanMessage::SetLedThreshold(r) => match r {
                Request::Request(v) => if *v == 0 || (21 <= *v && *v <= 4000) {
                    Ok(())
                } else {
                    Err(
                        GrappleErrorV::ParameterOutOfBounds(
                            "Invalid LED threshold. Must be under >20, <4000mm."@,
                        ),
                    )
                },
                Request::Ack(_) => Ok(()),
            },
        }
    }

    fn validate(&self) -> (r: Result<(), GrappleError>) {
        match self {
            LaserCanMessage::Measurement(_) => Ok(()),
            LaserCanMessage::SetRange(_) => Ok(()),
            LaserCanMessage::SetRoi(rq) => match rq {
                Request::Request(roi) => roi.validate(),
                Request::Ack(_) => Ok(()),
            },
            LaserCanMessage::SetTimingBudget(_) => Ok(()),
            LaserCanMessage::SetLedThreshold(rq) => match rq {
                Request::Request(v) => if *v == 0 || (21 <= *v && *v <= 4000) {
                    Ok(())
                } else {
                    Err(
                        GrappleError::ParameterOutOfBounds(
                            "Invalid LED threshold. Must be under >20, <4000mm.".to_owned(),
                        ),
                    )
                },
                Request::Ack(_) => Ok(()),
            },
        }
    }
}

/// Decoding an encoded distance-sensor operation under the identifier the
/// marshalling layer writes restores the operation exactly.
pub proof fn lemma_lasercan_round_trip(m: LaserCanMessage, ctx: GrappleMessageId)
    requires
        m.wf(),
        ctx.api_class == m.spec_tag(),
        m.spec_tag() != 0 ==> ctx.ack_flag == m.spec_is_ack(),
    ensures
        LaserCanMessage::spec_read(m.spec_bytes(), ctx) == Ok::<LaserCanMessage, MarshalError>(m),
{
    match m {
        LaserCanMessage::Measurement(mm) => {
            lemma_lasercan_round_trip_measurement(m, ctx);
        },
        _ => {
            lemma_lasercan_round_trip_config(m, ctx);
        },
    }
}

/// Round trip of the measurement status frame.
#[verifier::rlimit(50)]
#[verifier::spinoff_prover]
proof fn lemma_lasercan_round_trip_measurement(m: LaserCanMessage, ctx: GrappleMessageId)
    requires
        m.wf(),
        m is Measurement,
        ctx.api_class == m.spec_tag(),
    ensures
        LaserCanMessage::spec_read(m.spec_bytes(), ctx) == Ok::<LaserCanMessage, MarshalError>(m),
{
    let b = m.spec_bytes();
    let mm = m->Measurement_0;
    assert(b.len() == 8);
    assert(b[0] == mm.status);
    assert(b[1] == u16_le_bytes(mm.distance_mm)[0]);
    assert(b[2] == u16_le_bytes(mm.distance_mm)[1]);
    assert(b[3] == u16_le_bytes(mm.ambient)[0]);
    assert(b[4] == u16_le_bytes(mm.ambient)[1]);
    lemma_u16_le_recompose(mm.distance_mm);
    lemma_u16_le_recompose(mm.ambient);
    assert(le16_at(b, 1) == mm.distance_mm);
    assert(le16_at(b, 3) == mm.ambient);
    let mb = mm.mode.spec_bit();
    let bt = mm.budget.spec_tag();
    assert(b[5] == mb * 128 + bt);
    lemma_fundamental_div_mod_converse((mb * 128 + bt) as int, 128, mb as int, bt as int);
    assert(b[5] % 128 == bt);
    assert((b[5] / 128) % 2 == mb);
    let x = (mm.roi.x.0 % 16) as int;
    let y = (mm.roi.y.0 % 16) as int;
    assert(b[6] == x * 16 + y);
    lemma_fundamental_div_mod_converse(x * 16 + y, 16, x, y);
    let ww = ((mm.roi.w.0 - 4) % 16) as int;
    let hh = ((mm.roi.h.0 - 4) % 16) as int;
    assert(b[7] == ww * 16 + hh);
    lemma_fundamental_div_mod_converse(ww * 16 + hh, 16, ww, hh);
}

/// Round trip of the four configuration operations.
#[verifier::rlimit(50)]
#[verifier::spinoff_prover]
proof fn lemma_lasercan_round_trip_config(m: LaserCanMessage, ctx: GrappleMessageId)
    requires
        m.wf(),
        !(m is Measurement),
        ctx.api_class == m.spec_tag(),
        ctx.ack_flag == m.spec_is_ack(),
    ensures
        LaserCanMessage::spec_read(m.spec_bytes(), ctx) == Ok::<LaserCanMessage, MarshalError>(m),
{
    let b = m.spec_bytes();
    match m {
        LaserCanMessage::Measurement(_) => {},
        LaserCanMessage::SetRange(r) => {
            match r {
                Request::Request(mode) => {
                    let mb = mode.spec_bit();
                    assert(b[0] == mb * 128);
                    lemma_fundamental_div_mod_converse((mb * 128) as int, 128, mb as int, 0);
                },
                Request::Ack(a) => {
                    assert(Request::Ack::<LaserCanRangingMode, ()>(a) == Request::Ack::<
                        LaserCanRangingMode,
                        (),
                    >(()));
                },
            }
        },
        LaserCanMessage::SetRoi(r) => {
            match r {
                Request::Request(roi) => {
                    let x = ((roi.x.0 - 1) % 16) as int;
                    let y = ((roi.y.0 - 1) % 16) as int;
                    let ww = ((roi.w.0 - 1) % 16) as int;
                    let hh = ((roi.h.0 - 1) % 16) as int;
                    assert(b[0] == x * 16 + y);
                    assert(b[1] == ww * 16 + hh);
                    lemma_fundamental_div_mod_converse(x * 16 + y, 16, x, y);
                    lemma_fundamental_div_mod_converse(ww * 16 + hh, 16, ww, hh);
                },
                Request::Ack(a) => {
                    assert(Request::Ack::<LaserCanRoi, ()>(a) == Request::Ack::<LaserCanRoi, ()>(
                        (),
                    ));
                },
            }
        },
        LaserCanMessage::SetTimingBudget(r) => {
            match r {
                Request::Request(budget) => {
                    let bt = budget.spec_tag();
                    assert(b[0] == bt * 2);
                    lemma_fundamental_div_mod_converse((bt * 2) as int, 2, bt as int, 0);
                },
                Request::Ack(a) => {
                    assert(Request::Ack::<LaserCanTimingBudget, ()>(a) == Request::Ack::<
                        LaserCanTimingBudget,
                        (),
                    >(()));
                },
            }
        },
        LaserCanMessage::SetLedThreshold(r) => {
            match r {
                Request::Request(v) => {
                    assert(b[0] == u16_be_bytes(v)[0]);
                    assert(b[1] == u16_be_bytes(v)[1]);
                    lemma_u16_be_recompose(v);
                    assert(be16_at(b, 0) == v);
                },
                Request::Ack(a) => {
                    assert(Request::Ack::<u16, ()>(a) == Request::Ack::<u16, ()>(()));
                },
            }
        },
    }
}

} // verus!
