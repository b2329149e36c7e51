//! Robotics-controller frames of the single-frame family.

use vstd::prelude::*;

verus! {

use crate::frc::{FrcCanData, FrcCanDataV, FrcCanDecodable};

/// Messages of the robotics controller recognised on the bus.
#[derive(Debug, Clone, Copy, PartialEq, Eq, Structural)]
pub enum Ni {
    RioHeartbeat,
}

impl View for Ni {
    type V = Ni;

    open spec fn view(&self) -> Ni {
        *self
    }
}

impl FrcCanDecodable for Ni {
    open spec fn spec_decode(d: FrcCanDataV) -> Option<Ni> {
        if d.id.manufacturer == 0x01 && d.id.device_type == 0x01 && d.id.api_class == 0x06
            && d.id.api_index == 0x02 {
            Some(Ni::RioHeartbeat)
        } else {
            None
        }
    }

    fn decode(d: &FrcCanData) -> (r: Option<Ni>) {
        if d.id.manufacturer == 0x01 && d.id.device_type == 0x01 && d.id.api_class == 0x06
            && d.id.api_index == 0x02 {
            Some(Ni::RioHeartbeat)
        } else {
            None
        }
    }
}

} // verus!
