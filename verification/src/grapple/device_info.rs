//! Broadcast device-info operations: enumeration, naming, identification.
//!
//! The operation is selected by the identifier's `api_index`; bodies carry no
//! in-band tag.  Strings travel as length-prefixed byte runs with a `u8`
//! count.

use vstd::prelude::*;

verus! {

use crate::bits::{
    BitReader, BitWriter, MarshalError, be32_at, u32_be_bytes, lemma_u32_be_recompose,
};
use crate::grapple::GrappleMessageId;
use crate::res_view;
use vstd::arithmetic::power2::{pow2, lemma2_to64};

/// Product line of a responding device.
#[derive(Debug, Clone, Copy, PartialEq, Eq, Structural)]
#[allow(non_camel_case_types)]
pub enum GrappleModelId {
    LaserCan,
    SpiderLan,
    ACROBATIC_LEMUR,
}

impl GrappleModelId {
    pub open spec fn spec_tag(self) -> u8 {
        match self {
            GrappleModelId::LaserCan => 0x10,
            GrappleModelId::SpiderLan => 0x20,
            GrappleModelId::ACROBATIC_LEMUR => 0x30,
        }
    }

    pub open spec fn spec_from_tag(t: u8) -> Option<GrappleModelId> {
        if t == 0x10 {
            Some(GrappleModelId::LaserCan)
        } else if t == 0x20 {
            Some(GrappleModelId::SpiderLan)
        } else if t == 0x30 {
            Some(GrappleModelId::ACROBATIC_LEMUR)
        } else {
            None
        }
    }

    pub fn tag(&self) -> (t: u8)
        ensures
            t == self.spec_tag(),
    {
        match self {
            GrappleModelId::LaserCan => 0x10,
            GrappleModelId::SpiderLan => 0x20,
            GrappleModelId::ACROBATIC_LEMUR => 0x30,
        }
    }

    pub fn from_tag(t: u8) -> (r: Option<GrappleModelId>)
        ensures
            r == GrappleModelId::spec_from_tag(t),
    {
        if t == 0x10 {
            Some(GrappleModelId::LaserCan)
        } else if t == 0x20 {
            Some(GrappleModelId::SpiderLan)
        } else if t == 0x30 {
            Some(GrappleModelId::ACROBATIC_LEMUR)
        } else {
            None
        }
    }
}

/// Broadcast device-info operations, selected by `api_index`.
#[derive(Debug, Clone, PartialEq, Eq)]
pub enum GrappleDeviceInfo {
    EnumerateRequest,
    EnumerateResponse {
        model_id: GrappleModelId,
        serial: u32,
        is_dfu: bool,
        is_dfu_in_progress: bool,
        version: Vec<u8>,
        name: Vec<u8>,
    },
    Blink { serial: u32 },
    SetName { serial: u32, name: Vec<u8> },
    CommitConfig { serial: u32 },
    SetId { serial: u32, new_id: u8 },
    ArbitrationRequest,
    ArbitrationReject,
}

/// The mathematical model of [`GrappleDeviceInfo`]: byte runs as sequences.
pub enum GrappleDeviceInfoV {
    EnumerateRequest,
    EnumerateResponse {
        model_id: GrappleModelId,
        serial: u32,
        is_dfu: bool,
        is_dfu_in_progress: bool,
        version: Seq<u8>,
        name: Seq<u8>,
    },
    Blink { serial: u32 },
    SetName { serial: u32, name: Seq<u8> },
    CommitConfig { serial: u32 },
    SetId { serial: u32, new_id: u8 },
    ArbitrationRequest,
    ArbitrationReject,
}

impl View for GrappleDeviceInfo {
    type V = GrappleDeviceInfoV;

    open spec fn view(&self) -> GrappleDeviceInfoV {
        match self {
            GrappleDeviceInfo::EnumerateRequest => GrappleDeviceInfoV::EnumerateRequest,
            GrappleDeviceInfo::EnumerateResponse {
                model_id,
                serial,
                is_dfu,
                is_dfu_in_progress,
                version,
                name,
            } => GrappleDeviceInfoV::EnumerateResponse {
                model_id: *model_id,
                serial: *serial,
                is_dfu: *is_dfu,
                is_dfu_in_progress: *is_dfu_in_progress,
                version: version@,
                name: name@,
            },
            GrappleDeviceInfo::Blink { serial } => GrappleDeviceInfoV::Blink { serial: *serial },
            GrappleDeviceInfo::SetName { serial, name } => GrappleDeviceInfoV::SetName {
                serial: *serial,
                name: name@,
            },
            GrappleDeviceInfo::CommitConfig { serial } => GrappleDeviceInfoV::CommitConfig {
                serial: *serial,
            },
            GrappleDeviceInfo::SetId { serial, new_id } => GrappleDeviceInfoV::SetId {
                serial: *serial,
                new_id: *new_id,
            },
            GrappleDeviceInfo::ArbitrationRequest => GrappleDeviceInfoV::ArbitrationRequest,
            GrappleDeviceInfo::ArbitrationReject => GrappleDeviceInfoV::ArbitrationReject,
        }
    }
}

impl GrappleDeviceInfoV {
    /// The `api_index` value that selects this operation.
    pub open spec fn spec_tag(self) -> u8 {
        match self {
            GrappleDeviceInfoV::EnumerateRequest => 0,
            GrappleDeviceInfoV::EnumerateResponse { .. } => 1,
            GrappleDeviceInfoV::Blink { .. } => 2,
            GrappleDeviceInfoV::SetName { .. } => 3,
            GrappleDeviceInfoV::CommitConfig { .. } => 4,
            GrappleDeviceInfoV::SetId { .. } => 5,
            GrappleDeviceInfoV::ArbitrationRequest => 6,
            GrappleDeviceInfoV::ArbitrationReject => 7,
        }
    }

    /// Length-tagged byte runs fit their `u8` count.
    pub open spec fn wf(self) -> bool {
        match self {
            GrappleDeviceInfoV::EnumerateResponse { version, name, .. } => version.len() <= 255
                && name.len() <= 255,
            GrappleDeviceInfoV::SetName { name, .. } => name.len() <= 255,
            _ => true,
        }
    }

    /// How marshalling rewrites the identifier: the operation tag lands in
    /// `api_index`.
    pub open spec fn spec_update(self, id: GrappleMessageId) -> GrappleMessageId {
        GrappleMessageId { api_index: self.spec_tag(), ..id }
    }

    /// The body bytes of the operation.
    pub open spec fn spec_bytes(self) -> Seq<u8> {
        match self {
            GrappleDeviceInfoV::EnumerateRequest => Seq::<u8>::empty(),
            GrappleDeviceInfoV::EnumerateResponse {
                model_id,
                serial,
                is_dfu,
                is_dfu_in_progress,
                version,
                name,
            } => seq![model_id.spec_tag()] + u32_be_bytes(serial) + seq![
                (((if is_dfu {
                    128int
                } else {
                    0int
                }) + (if is_dfu_in_progress {
                    64int
                } else {
                    0int
                })) as u8),
                (version.len() as u8),
            ] + version + seq![(name.len() as u8)] + name,
            GrappleDeviceInfoV::Blink { serial } => u32_be_bytes(serial),
            GrappleDeviceInfoV::SetName { serial, name } => u32_be_bytes(serial) + seq![
                (name.len() as u8),
            ] + name,
            GrappleDeviceInfoV::CommitConfig { serial } => u32_be_bytes(serial),
            GrappleDeviceInfoV::SetId { serial, new_id } => u32_be_bytes(serial) + seq![new_id],
            GrappleDeviceInfoV::ArbitrationRequest => Seq::<u8>::empty(),
            GrappleDeviceInfoV::ArbitrationReject => Seq::<u8>::empty(),
        }
    }

    /// What decoding yields from body `b` under an identifier whose
    /// `api_index` selects the operation.  Trailing bytes beyond a
    /// fixed-size body are ignored.
    pub open spec fn spec_read(b: Seq<u8>, ctx: GrappleMessageId) -> Result<
        GrappleDeviceInfoV,
        MarshalError,
    > {
        if ctx.api_index == 0 {
            Ok(GrappleDeviceInfoV::EnumerateRequest)
        } else if ctx.api_index == 1 {
            if b.len() < 1 {
                Err(MarshalError::BufferExhausted)
            } else if GrappleModelId::spec_from_tag(b[0]) is None {
                Err(MarshalError::NoMatch)
            } else if b.len() < 5 {
                Err(MarshalError::BufferExhausted)
            } else if b.len() < 6 {
                Err(MarshalError::BufferExhausted)
            } else if b.len() < 7 {
                Err(MarshalError::BufferExhausted)
            } else if b.len() < 7 + b[6] {
                Err(MarshalError::BufferExhausted)
            } else if b.len() < 8 + b[6] {
                Err(MarshalError::BufferExhausted)
            } else if b.len() < 8 + b[6] + b[7 + b[6]] {
                Err(MarshalError::BufferExhausted)
            } else {
                let vl = b[6] as int;
                let nl = b[7 + vl] as int;
                Ok(
                    GrappleDeviceInfoV::EnumerateResponse {
                        model_id: GrappleModelId::spec_from_tag(b[0])->Some_0,
                        serial: be32_at(b, 1),
                        is_dfu: ((b[5] / 128) % 2) == 1,
                        is_dfu_in_progress: ((b[5] / 64) % 2) == 1,
                        version: b.subrange(7, 7 + vl),
                        name: b.subrange(8 + vl, 8 + vl + nl),
                    },
                )
            }
        } else if ctx.api_index == 2 {
            if b.len() < 4 {
                Err(MarshalError::BufferExhausted)
            } else {
                Ok(GrappleDeviceInfoV::Blink { serial: be32_at(b, 0) })
            }
        } else if ctx.api_index == 3 {
            if b.len() < 4 {
                Err(MarshalError::BufferExhausted)
            } else if b.len() < 5 {
                Err(MarshalError::BufferExhausted)
            } else if b.len() < 5 + b[4] {
                Err(MarshalError::BufferExhausted)
            } else {
                Ok(
                    GrappleDeviceInfoV::SetName {
                        serial: be32_at(b, 0),
                        name: b.subrange(5, 5 + b[4]),
                    },
                )
            }
        } else if ctx.api_index == 4 {
            if b.len() < 4 {
                Err(MarshalError::BufferExhausted)
            } else {
                Ok(GrappleDeviceInfoV::CommitConfig { serial: be32_at(b, 0) })
            }
        } else if ctx.api_index == 5 {
            if b.len() < 4 {
                Err(MarshalError::BufferExhausted)
            } else if b.len() < 5 {
                Err(MarshalError::BufferExhausted)
            } else {
                Ok(GrappleDeviceInfoV::SetId { serial: be32_at(b, 0), new_id: b[4] })
            }
        } else if ctx.api_index == 6 {
            Ok(GrappleDeviceInfoV::ArbitrationRequest)
        } else if ctx.api_index == 7 {
            Ok(GrappleDeviceInfoV::ArbitrationReject)
        } else {
            Err(MarshalError::NoMatch)
        }
    }
}

impl GrappleDeviceInfo {
    /// The `api_index` value that selects this operation.
    pub fn tag(&self) -> (t: u8)
        ensures
            t == self@.spec_tag(),
    {
        match self {
            GrappleDeviceInfo::EnumerateRequest => 0,
            GrappleDeviceInfo::EnumerateResponse { .. } => 1,
            GrappleDeviceInfo::Blink { .. } => 2,
            GrappleDeviceInfo::SetName { .. } => 3,
            GrappleDeviceInfo::CommitConfig { .. } => 4,
            GrappleDeviceInfo::SetId { .. } => 5,
            GrappleDeviceInfo::ArbitrationRequest => 6,
            GrappleDeviceInfo::ArbitrationReject => 7,
        }
    }

    /// Length-tagged byte runs fit their `u8` count.
    pub fn check_wf(&self) -> (r: bool)
        ensures
            r == self@.wf(),
    {
        match self {
            GrappleDeviceInfo::EnumerateResponse { version, name, .. } => version.len() <= 255
                && name.len() <= 255,
            GrappleDeviceInfo::SetName { name, .. } => name.len() <= 255,
            _ => true,
        }
    }

    /// Write the operation tag into the identifier.
    pub fn update(&self, id: &mut GrappleMessageId)
        ensures
            *final(id) == self@.spec_update(*old(id)),
    {
        id.api_index = self.tag();
    }

    /// Append the body bytes.
    pub fn write(&self, w: &mut BitWriter)
        requires
            self@.wf(),
            old(w).inv(),
            old(w).aligned(),
        ensures
            final(w).inv(),
            final(w).aligned(),
            final(w).bytes() == old(w).bytes() + self@.spec_bytes(),
    {
        match self {
            GrappleDeviceInfo::EnumerateRequest => {
                proof {
                    assert(w.bytes() =~= old(w).bytes() + self@.spec_bytes());
                }
            },
            GrappleDeviceInfo::EnumerateResponse {
                model_id,
                serial,
                is_dfu,
                is_dfu_in_progress,
                version,
                name,
            } => {
                proof {
                    lemma2_to64();
                }
                let ghost fb = (((if *is_dfu {
                    128int
                } else {
                    0int
                }) + (if *is_dfu_in_progress {
                    64int
                } else {
                    0int
                })) as u8);
                w.write_u8(model_id.tag());
                w.write_u32_be(*serial);
                proof {
                    assert(w.bytes() =~= old(w).bytes() + seq![model_id.spec_tag()]
                        + u32_be_bytes(*serial));
                }
                w.write_bits(
                    if *is_dfu {
                        1
                    } else {
                        0
                    },
                    1,
                );
                w.write_bits(
                    if *is_dfu_in_progress {
                        1
                    } else {
                        0
                    },
                    1,
                );
                proof {
                    assert(w.pend_bits() == 2);
                    assert(w.pend_val() == (if *is_dfu {
                        2int
                    } else {
                        0int
                    }) + (if *is_dfu_in_progress {
                        1int
                    } else {
                        0int
                    }));
                }
                let ghost pv = w.pend_val();
                w.align_byte();
                proof {
                    assert(w.bytes().last() == (pv * pow2(6)) as u8);
                    assert(pow2(6) == 64);
                    assert((pv * pow2(6)) as u8 == fb);
                    assert(w.bytes().last() == fb);
                    assert(w.bytes() =~= old(w).bytes() + seq![model_id.spec_tag()]
                        + u32_be_bytes(*serial) + seq![fb]);
                }
                w.write_u8(version.len() as u8);
                w.write_bytes(version.as_slice());
                w.write_u8(name.len() as u8);
                w.write_bytes(name.as_slice());
                proof {
                    assert(w.bytes() =~= old(w).bytes() + seq![model_id.spec_tag()]
                        + u32_be_bytes(*serial) + seq![fb, (version@.len() as u8)] + version@
                        + seq![(name@.len() as u8)] + name@);
                    assert(w.bytes() =~= old(w).bytes() + self@.spec_bytes());
                }
            },
            GrappleDeviceInfo::Blink { serial } => {
                w.write_u32_be(*serial);
            },
            GrappleDeviceInfo::SetName { serial, name } => {
                w.write_u32_be(*serial);
                w.write_u8(name.len() as u8);
                w.write_bytes(name.as_slice());
                proof {
                    assert(w.bytes() =~= old(w).bytes() + self@.spec_bytes());
                }
            },
            GrappleDeviceInfo::CommitConfig { serial } => {
                w.write_u32_be(*serial);
            },
            GrappleDeviceInfo::SetId { serial, new_id } => {
                w.write_u32_be(*serial);
                w.write_u8(*new_id);
                proof {
                    assert(w.bytes() =~= old(w).bytes() + self@.spec_bytes());
                }
            },
            GrappleDeviceInfo::ArbitrationRequest => {
                proof {
                    assert(w.bytes() =~= old(w).bytes() + self@.spec_bytes());
                }
            },
            GrappleDeviceInfo::ArbitrationReject => {
                proof {
                    assert(w.bytes() =~= old(w).bytes() + self@.spec_bytes());
                }
            },
        }
    }

    /// Decode the operation selected by `ctx.api_index` from the remainder
    /// of the buffer.
    pub fn read(r: &mut BitReader, ctx: GrappleMessageId) -> (res: Result<
        GrappleDeviceInfo,
        MarshalError,
    >)
        requires
            old(r).inv(),
            old(r).aligned(),
        ensures
            final(r).inv(),
            final(r).data() == old(r).data(),
            res_view(res) == GrappleDeviceInfoV::spec_read(old(r).rest(), ctx),
    {
        let ghost b = old(r).rest();
        if ctx.api_index == 0 {
            Ok(GrappleDeviceInfo::EnumerateRequest)
        } else if ctx.api_index == 1 {
            let tag = r.read_u8()?;
            proof {
                assert(tag == b[0]);
            }
            let model_id = match GrappleModelId::from_tag(tag) {
                Some(m) => m,
                None => {
                    return Err(MarshalError::NoMatch);
                },
            };
            let serial = r.read_u32_be()?;
            let flags = r.read_u8()?;
            let vl = r.read_u8()?;
            let version = r.read_bytes(vl as usize)?;
            let nl = r.read_u8()?;
            let name = r.read_bytes(nl as usize)?;
            proof {
                assert(serial == be32_at(b, 1)) by {
                    lemma_u32_be_recompose(serial);
                    assert(b[1] == u32_be_bytes(serial)[0]);
                    assert(b[2] == u32_be_bytes(serial)[1]);
                    assert(b[3] == u32_be_bytes(serial)[2]);
                    assert(b[4] == u32_be_bytes(serial)[3]);
                }
                assert(flags == b[5]);
                assert(vl == b[6]);
                assert(version@ =~= b.subrange(7, 7 + vl as int));
                assert(nl == b[7 + vl as int]);
                assert(name@ =~= b.subrange(8 + vl as int, 8 + vl as int + nl as int));
            }
            Ok(
                GrappleDeviceInfo::EnumerateResponse {
                    model_id,
                    serial,
                    is_dfu: ((flags / 128) % 2) == 1,
                    is_dfu_in_progress: ((flags / 64) % 2) == 1,
                    version,
                    name,
                },
            )
        } else if ctx.api_index == 2 {
            let serial = r.read_u32_be()?;
            proof {
                lemma_u32_be_recompose(serial);
                assert(b[0] == u32_be_bytes(serial)[0]);
                assert(b[1] == u32_be_bytes(serial)[1]);
                assert(b[2] == u32_be_bytes(serial)[2]);
                assert(b[3] == u32_be_bytes(serial)[3]);
            }
            Ok(GrappleDeviceInfo::Blink { serial })
        } else if ctx.api_index == 3 {
            let serial = r.read_u32_be()?;
            let nl = r.read_u8()?;
            let name = r.read_bytes(nl as usize)?;
            proof {
                lemma_u32_be_recompose(serial);
                assert(b[0] == u32_be_bytes(serial)[0]);
                assert(b[1] == u32_be_bytes(serial)[1]);
                assert(b[2] == u32_be_bytes(serial)[2]);
                assert(b[3] == u32_be_bytes(serial)[3]);
                assert(nl == b[4]);
                assert(name@ =~= b.subrange(5, 5 + nl as int));
            }
            Ok(GrappleDeviceInfo::SetName { serial, name })
        } else if ctx.api_index == 4 {
            let serial = r.read_u32_be()?;
            proof {
                lemma_u32_be_recompose(serial);
                assert(b[0] == u32_be_bytes(serial)[0]);
                assert(b[1] == u32_be_bytes(serial)[1]);
                assert(b[2] == u32_be_bytes(serial)[2]);
                assert(b[3] == u32_be_bytes(serial)[3]);
            }
            Ok(GrappleDeviceInfo::CommitConfig { serial })
        } else if ctx.api_index == 5 {
            let serial = r.read_u32_be()?;
            let new_id = r.read_u8()?;
            proof {
                lemma_u32_be_recompose(serial);
                assert(b[0] == u32_be_bytes(serial)[0]);
                assert(b[1] == u32_be_bytes(serial)[1]);
                assert(b[2] == u32_be_bytes(serial)[2]);
                assert(b[3] == u32_be_bytes(serial)[3]);
                assert(new_id == b[4]);
            }
            Ok(GrappleDeviceInfo::SetId { serial, new_id })
        } else if ctx.api_index == 6 {
            Ok(GrappleDeviceInfo::ArbitrationRequest)
        } else if ctx.api_index == 7 {
            Ok(GrappleDeviceInfo::ArbitrationReject)
        } else {
            Err(MarshalError::NoMatch)
        }
    }
}

/// Decoding an encoded device-info operation under the identifier the
/// marshalling layer writes restores the operation exactly.
pub proof fn lemma_device_info_round_trip(m: GrappleDeviceInfoV, ctx: GrappleMessageId)
    requires
        m.wf(),
        ctx.api_index == m.spec_tag(),
    ensures
        GrappleDeviceInfoV::spec_read(m.spec_bytes(), ctx) == Ok::<
            GrappleDeviceInfoV,
            MarshalError,
        >(m),
{
    let b = m.spec_bytes();
    match m {
        GrappleDeviceInfoV::EnumerateRequest => {},
        GrappleDeviceInfoV::EnumerateResponse {
            model_id,
            serial,
            is_dfu,
            is_dfu_in_progress,
            version,
            name,
        } => {
            let fb = ((if is_dfu {
                128int
            } else {
                0int
            }) + (if is_dfu_in_progress {
                64int
            } else {
                0int
            })) as u8;
            let vl = version.len() as int;
            let nl = name.len() as int;
            assert(b.len() == 8 + vl + nl);
            assert(b[0] == model_id.spec_tag());
            assert(GrappleModelId::spec_from_tag(model_id.spec_tag()) == Some(model_id));
            assert(b[1] == u32_be_bytes(serial)[0]);
            assert(b[2] == u32_be_bytes(serial)[1]);
            assert(b[3] == u32_be_bytes(serial)[2]);
            assert(b[4] == u32_be_bytes(serial)[3]);
            lemma_u32_be_recompose(serial);
            assert(be32_at(b, 1) == serial);
            assert(b[5] == fb);
            assert(((fb / 128) % 2 == 1) == is_dfu);
            assert(((fb / 64) % 2 == 1) == is_dfu_in_progress);
            assert(b[6] == vl as u8);
            assert(b.subrange(7, 7 + vl) =~= version);
            assert(b[7 + vl] == nl as u8);
            assert(b.subrange(8 + vl, 8 + vl + nl) =~= name);
        },
        GrappleDeviceInfoV::Blink { serial } => {
            lemma_u32_be_recompose(serial);
            assert(be32_at(b, 0) == serial);
        },
        GrappleDeviceInfoV::SetName { serial, name } => {
            let nl = name.len() as int;
            assert(b.len() == 5 + nl);
            assert(b[0] == u32_be_bytes(serial)[0]);
            assert(b[1] == u32_be_bytes(serial)[1]);
            assert(b[2] == u32_be_bytes(serial)[2]);
            assert(b[3] == u32_be_bytes(serial)[3]);
            lemma_u32_be_recompose(serial);
            assert(be32_at(b, 0) == serial);
            assert(b[4] == nl as u8);
            assert(b.subrange(5, 5 + nl) =~= name);
        },
        GrappleDeviceInfoV::CommitConfig { serial } => {
            lemma_u32_be_recompose(serial);
            assert(be32_at(b, 0) == serial);
        },
        GrappleDeviceInfoV::SetId { serial, new_id } => {
            assert(b[0] == u32_be_bytes(serial)[0]);
            assert(b[1] == u32_be_bytes(serial)[1]);
            assert(b[2] == u32_be_bytes(serial)[2]);
            assert(b[3] == u32_be_bytes(serial)[3]);
            lemma_u32_be_recompose(serial);
            assert(be32_at(b, 0) == serial);
            assert(b[4] == new_id);
        },
        GrappleDeviceInfoV::ArbitrationRequest => {},
        GrappleDeviceInfoV::ArbitrationReject => {},
    }
}

} // verus!
