//! Robotics-controller messages: the heartbeat frame, selected by device
//! type, API class and API index of the identifier.

use vstd::prelude::*;

verus! {

use crate::MessageId;
use crate::bits::{BitReader, BitWriter, MarshalError};
use crate::res_view;
use vstd::arithmetic::power2::{pow2, lemma2_to64};
use vstd::arithmetic::div_mod::lemma_fundamental_div_mod_converse;

/// Manufacturer code of the robotics controller family.
pub const MANUFACTURER_NI: u8 = 0x01;

/// The robot-controller heartbeat frame: eight bytes, with the control bits
/// packed into the fifth.
#[derive(Debug, Clone, Copy, PartialEq, Eq, Structural)]
pub struct NiRioHearbeat1 {
    pub reserved1: u8,
    pub reserved2: u8,
    pub reserved3: u8,
    pub reserved4: u8,
    pub reserved5: u8,
    pub watchdog_enabled: bool,
    pub test: bool,
    pub autonomous: bool,
    pub enabled: bool,
    pub red_alliance: bool,
    pub reserved6: u8,
    pub reserved7: u8,
    pub reserved8: u8,
}

impl NiRioHearbeat1 {
    /// The reserved bit-field fits its three bits.
    pub open spec fn wf(self) -> bool {
        self.reserved5 < 8
    }

    /// The packed fifth byte: three reserved bits, then the five control
    /// flags, most significant first.
    pub open spec fn spec_flag_byte(self) -> u8 {
        ((self.reserved5 * 32) + (if self.watchdog_enabled {
            16int
        } else {
            0int
        }) + (if self.test {
            8int
        } else {
            0int
        }) + (if self.autonomous {
            4int
        } else {
            0int
        }) + (if self.enabled {
            2int
        } else {
            0int
        }) + (if self.red_alliance {
            1int
        } else {
            0int
        })) as u8
    }

    pub open spec fn spec_bytes(self) -> Seq<u8> {
        seq![
            self.reserved1,
            self.reserved2,
            self.reserved3,
            self.reserved4,
            self.spec_flag_byte(),
            self.reserved6,
            self.reserved7,
            self.reserved8,
        ]
    }

    pub open spec fn spec_read(b: Seq<u8>) -> Result<NiRioHearbeat1, MarshalError> {
        if b.len() < 8 {
            Err(MarshalError::BufferExhausted)
        } else {
            Ok(
                NiRioHearbeat1 {
                    reserved1: b[0],
                    reserved2: b[1],
                    reserved3: b[2],
                    reserved4: b[3],
                    reserved5: ((b[4] / 32) % 8) as u8,
                    watchdog_enabled: ((b[4] / 16) % 2) == 1,
                    test: ((b[4] / 8) % 2) == 1,
                    autonomous: ((b[4] / 4) % 2) == 1,
                    enabled: ((b[4] / 2) % 2) == 1,
                    red_alliance: (b[4] % 2) == 1,
                    reserved6: b[5],
                    reserved7: b[6],
                    reserved8: b[7],
                },
            )
        }
    }
}

/// Messages of the robotics controller itself, selected by `api_class`.
#[derive(Debug, Clone, Copy, PartialEq, Eq, Structural)]
pub enum NiRioHeartbeat {
    Hearbeat(NiRioHearbeat1),
}

/// Device families of the robotics-controller manufacturer, selected by
/// `device_type`.
#[derive(Debug, Clone, Copy, PartialEq, Eq, Structural)]
pub enum NiRobotControllerMessage {
    Heartbeat(NiRioHeartbeat),
}

/// The robotics-controller message tree root, selected by `manufacturer`.
#[derive(Debug, Clone, Copy, PartialEq, Eq, Structural)]
pub enum NiDeviceMessage {
    RobotController(NiRobotControllerMessage),
}

impl View for NiDeviceMessage {
    type V = NiDeviceMessage;

    open spec fn view(&self) -> NiDeviceMessage {
        *self
    }
}

impl NiDeviceMessage {
    pub open spec fn wf(self) -> bool {
        match self {
            NiDeviceMessage::RobotController(NiRobotControllerMessage::Heartbeat(
                NiRioHeartbeat::Hearbeat(hb),
            )) => hb.wf(),
        }
    }

    /// The heartbeat stands at device type 1, API class 6, API index 2.
    pub open spec fn spec_update(self, id: MessageId) -> MessageId {
        MessageId { device_type: 1, api_class: 6, api_index: 2, ..id }
    }

    pub open spec fn spec_bytes(self) -> Seq<u8> {
        match self {
            NiDeviceMessage::RobotController(NiRobotControllerMessage::Heartbeat(
                NiRioHeartbeat::Hearbeat(hb),
            )) => hb.spec_bytes(),
        }
    }

    pub open spec fn spec_read(b: Seq<u8>, ctx: MessageId) -> Result<
        NiDeviceMessage,
        MarshalError,
    > {
        if ctx.device_type == 1 {
            if ctx.api_class == 6 {
                if ctx.api_index == 2 {
                    match NiRioHearbeat1::spec_read(b) {
                        Ok(hb) => Ok(
                            NiDeviceMessage::RobotController(
                                NiRobotControllerMessage::Heartbeat(NiRioHeartbeat::Hearbeat(hb)),
                            ),
                        ),
                        Err(e) => Err(e),
                    }
                } else {
                    Err(MarshalError::NoMatch)
                }
            } else {
                Err(MarshalError::NoMatch)
            }
        } else {
            Err(MarshalError::NoMatch)
        }
    }

    /// The reserved bit-field fits its three bits.
    pub fn check_wf(&self) -> (r: bool)
        ensures
            r == self.wf(),
    {
        match self {
            NiDeviceMessage::RobotController(NiRobotControllerMessage::Heartbeat(
                NiRioHeartbeat::Hearbeat(hb),
            )) => hb.reserved5 < 8,
        }
    }

    /// Write the heartbeat coordinates into the identifier.
    pub fn update(&self, id: &mut MessageId)
        ensures
            *final(id) == self.spec_update(*old(id)),
    {
        id.device_type = 1;
        id.api_class = 6;
        id.api_index = 2;
    }

    /// Append the body bytes.
    pub fn write(&self, w: &mut BitWriter)
        requires
            self.wf(),
            old(w).inv(),
            old(w).aligned(),
        ensures
            final(w).inv(),
            final(w).aligned(),
            final(w).bytes() == old(w).bytes() + self.spec_bytes(),
    {
        proof {
            lemma2_to64();
        }
        match self {
            NiDeviceMessage::RobotController(NiRobotControllerMessage::Heartbeat(
                NiRioHeartbeat::Hearbeat(hb),
            )) => {
                w.write_u8(hb.reserved1);
                w.write_u8(hb.reserved2);
                w.write_u8(hb.reserved3);
                w.write_u8(hb.reserved4);
                w.write_bits(hb.reserved5 % 8, 3);
                w.write_bits(
                    if hb.watchdog_enabled {
                        1
                    } else {
                        0
                    },
                    1,
                );
                w.write_bits(
                    if hb.test {
                        1
                    } else {
                        0
                    },
                    1,
                );
                w.write_bits(
                    if hb.autonomous {
                        1
                    } else {
                        0
                    },
                    1,
                );
                w.write_bits(
                    if hb.enabled {
                        1
                    } else {
                        0
                    },
                    1,
                );
                w.write_bits(
                    if hb.red_alliance {
                        1
                    } else {
                        0
                    },
                    1,
                );
                w.write_u8(hb.reserved6);
                w.write_u8(hb.reserved7);
                w.write_u8(hb.reserved8);
                proof {
                    assert(w.bytes() =~= old(w).bytes() + self.spec_bytes());
                }
            },
        }
    }

    /// Decode the message selected by the identifier from the remainder of
    /// the buffer.
    pub fn read(r: &mut BitReader, ctx: MessageId) -> (res: Result<NiDeviceMessage, MarshalError>)
        requires
            old(r).inv(),
            old(r).aligned(),
        ensures
            final(r).inv(),
            final(r).data() == old(r).data(),
            res_view(res) == NiDeviceMessage::spec_read(old(r).rest(), ctx),
    {
        let ghost b = old(r).rest();
        proof {
            lemma2_to64();
        }
        if ctx.device_type == 1 && ctx.api_class == 6 && ctx.api_index == 2 {
            let r1 = r.read_u8()?;
            let r2 = r.read_u8()?;
            let r3 = r.read_u8()?;
            let r4 = r.read_u8()?;
            let res5 = r.read_bits(3)?;
            let wd = r.read_bits(1)?;
            let ts = r.read_bits(1)?;
            let au = r.read_bits(1)?;
            let en = r.read_bits(1)?;
            let ra = r.read_bits(1)?;
            let r6 = r.read_u8()?;
            let r7 = r.read_u8()?;
            let r8 = r.read_u8()?;
            proof {
                assert(r1 == b[0]);
                assert(r2 == b[1]);
                assert(r3 == b[2]);
                assert(r4 == b[3]);
                assert(res5 == (b[4] / 32) % 8);
                assert(wd == (b[4] / 16) % 2);
                assert(ts == (b[4] / 8) % 2);
                assert(au == (b[4] / 4) % 2);
                assert(en == (b[4] / 2) % 2);
                assert(ra == b[4] % 2) by {
                    lemma2_to64();
                    lemma_fundamental_div_mod_converse(b[4] as int, 1, b[4] as int, 0);
                    assert((b[4] as nat) / pow2(0) == b[4] as nat);
                }
                assert(r6 == b[5]);
                assert(r7 == b[6]);
                assert(r8 == b[7]);
            }
            Ok(
                NiDeviceMessage::RobotController(
                    NiRobotControllerMessage::Heartbeat(
                        NiRioHeartbeat::Hearbeat(
                            NiRioHearbeat1 {
                                reserved1: r1,
                                reserved2: r2,
                                reserved3: r3,
                                reserved4: r4,
                                reserved5: res5,
                                watchdog_enabled: wd == 1,
                                test: ts == 1,
                                autonomous: au == 1,
                                enabled: en == 1,
                                red_alliance: ra == 1,
                                reserved6: r6,
                                reserved7: r7,
                                reserved8: r8,
                            },
                        ),
                    ),
                ),
            )
        } else {
            Err(MarshalError::NoMatch)
        }
    }
}

/// Decoding an encoded heartbeat under the identifier the marshalling layer
/// writes restores the message exactly.
pub proof fn lemma_ni_round_trip(m: NiDeviceMessage, ctx: MessageId)
    requires
        m.wf(),
        ctx.device_type == 1,
        ctx.api_class == 6,
        ctx.api_index == 2,
    ensures
        NiDeviceMessage::spec_read(m.spec_bytes(), ctx) == Ok::<NiDeviceMessage, MarshalError>(m),
{
    let b = m.spec_bytes();
    match m {
        NiDeviceMessage::RobotController(NiRobotControllerMessage::Heartbeat(
            NiRioHeartbeat::Hearbeat(hb),
        )) => {
            let fbyte = hb.spec_flag_byte();
            let r5 = hb.reserved5 as int;
            let wd: int = if hb.watchdog_enabled {
                1
            } else {
                0
            };
            let ts: int = if hb.test {
                1
            } else {
                0
            };
            let au: int = if hb.autonomous {
                1
            } else {
                0
            };
            let en: int = if hb.enabled {
                1
            } else {
                0
            };
            let ra: int = if hb.red_alliance {
                1
            } else {
                0
            };
            assert(b[4] == fbyte);
            assert(fbyte == r5 * 32 + wd * 16 + ts * 8 + au * 4 + en * 2 + ra);
            lemma_fundamental_div_mod_converse(
                fbyte as int,
                32,
                r5,
                wd * 16 + ts * 8 + au * 4 + en * 2 + ra,
            );
            lemma_fundamental_div_mod_converse(
                fbyte as int,
                16,
                r5 * 2 + wd,
                ts * 8 + au * 4 + en * 2 + ra,
            );
            lemma_fundamental_div_mod_converse(
                fbyte as int,
                8,
                r5 * 4 + wd * 2 + ts,
                au * 4 + en * 2 + ra,
            );
            lemma_fundamental_div_mod_converse(
                fbyte as int,
                4,
                r5 * 8 + wd * 4 + ts * 2 + au,
                en * 2 + ra,
            );
            lemma_fundamental_div_mod_converse(
                fbyte as int,
                2,
                r5 * 16 + wd * 8 + ts * 4 + au * 2 + en,
                ra,
            );
            lemma_fundamental_div_mod_converse(r5 * 2 + wd, 2, r5, wd);
            lemma_fundamental_div_mod_converse(r5 * 4 + wd * 2 + ts, 2, r5 * 2 + wd, ts);
            lemma_fundamental_div_mod_converse(
                r5 * 8 + wd * 4 + ts * 2 + au,
                2,
                r5 * 4 + wd * 2 + ts,
                au,
            );
            lemma_fundamental_div_mod_converse(
                r5 * 16 + wd * 8 + ts * 4 + au * 2 + en,
                2,
                r5 * 8 + wd * 4 + ts * 2 + au,
                en,
            );
            assert((fbyte / 32) % 8 == r5);
            assert((fbyte / 16) % 2 == wd);
            assert((fbyte / 8) % 2 == ts);
            assert((fbyte / 4) % 2 == au);
            assert((fbyte / 2) % 2 == en);
            assert(fbyte % 2 == ra);
        },
    }
}

} // verus!
