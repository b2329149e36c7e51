//! Raw frames as they arrive from a CAN driver: a packed 29-bit identifier
//! and up to eight payload bytes.

use vstd::prelude::*;

verus! {

/// The five identifier fields of a raw frame.
#[derive(Debug, Clone, Copy, PartialEq, Eq, Structural)]
pub struct CANId {
    pub device_type: u8,
    pub manufacturer: u8,
    pub api_class: u8,
    pub api_index: u8,
    pub device_id: u8,
}

impl CANId {
    /// Every field fits its bit width.
    pub open spec fn wf(self) -> bool {
        self.device_type < 32 && self.api_class < 64 && self.api_index < 16 && self.device_id < 64
    }

    pub open spec fn spec_from_u32(value: u32) -> CANId {
        CANId {
            device_type: (((value / 0x1000000) % 32) as u8),
            manufacturer: (((value / 0x10000) % 256) as u8),
            api_class: (((value / 0x400) % 64) as u8),
            api_index: (((value / 0x40) % 16) as u8),
            device_id: ((value % 64) as u8),
        }
    }

    pub open spec fn spec_to_u32(self) -> u32 {
        (((self.device_type % 32) as u32) * 0x1000000 + ((self.manufacturer as u32) * 0x10000)
            + (((self.api_class % 64) as u32) * 0x400) + (((self.api_index % 16) as u32) * 0x40)
            + ((self.device_id % 64) as u32)) as u32
    }

    pub fn from_u32(value: u32) -> (r: CANId)
        ensures
            r == CANId::spec_from_u32(value),
            r.wf(),
    {
        CANId {
            device_type: ((value / 0x1000000) % 32) as u8,
            manufacturer: ((value / 0x10000) % 256) as u8,
            api_class: ((value / 0x400) % 64) as u8,
            api_index: ((value / 0x40) % 16) as u8,
            device_id: (value % 64) as u8,
        }
    }

    pub fn to_u32(&self) -> (r: u32)
        ensures
            r == self.spec_to_u32(),
            r < 0x20000000,
    {
        proof {
            let dt = self.device_type;
            let m = self.manufacturer;
            let ac = self.api_class;
            let ai = self.api_index;
            let di = self.device_id;
            assert(((dt % 32) as u32) * 0x1000000 + (m as u32) * 0x10000 + ((ac % 64) as u32)
                * 0x400 + ((ai % 16) as u32) * 0x40 + ((di % 64) as u32) < 0x20000000)
                by (bit_vector);
        }
        ((self.device_type % 32) as u32) * 0x1000000 + (self.manufacturer as u32) * 0x10000 + ((
        self.api_class % 64) as u32) * 0x400 + ((self.api_index % 16) as u32) * 0x40 + ((
        self.device_id % 64) as u32)
    }
}

/// A raw frame: unpacked identifier, an eight-byte buffer, and the number
/// of meaningful bytes.
#[derive(Debug, Clone, PartialEq, Eq)]
pub struct UnparsedCANMessage {
    pub id: CANId,
    pub payload: Vec<u8>,
    pub len: u8,
}

impl UnparsedCANMessage {
    /// Capture a frame handed in by a driver: the packed identifier and up
    /// to eight payload bytes, zero-padded.
    pub fn new(id: u32, buffer: &[u8]) -> (r: UnparsedCANMessage)
        requires
            buffer@.len() <= 8,
        ensures
            r.id == CANId::spec_from_u32(id),
            r.len == buffer@.len(),
            r.payload@.len() == 8,
            r.payload@.subrange(0, buffer@.len() as int) == buffer@,
            forall|j: int| buffer@.len() <= j < 8 ==> r.payload@[j] == 0u8,
    {
        let mut payload: Vec<u8> = Vec::new();
        let n = buffer.len();
        let mut i: usize = 0;
        while i < n
            invariant
                n == buffer@.len() <= 8,
                i <= n,
                payload@ == buffer@.subrange(0, i as int),
            decreases n - i,
        {
            payload.push(buffer[i]);
            proof {
                assert(payload@ =~= buffer@.subrange(0, i as int + 1));
            }
            i = i + 1;
        }
        while i < 8
            invariant
                n == buffer@.len() <= 8,
                n <= i <= 8,
                payload@.len() == i,
                payload@.subrange(0, n as int) == buffer@,
                forall|j: int| n <= j < i ==> payload@[j] == 0u8,
            decreases 8 - i,
        {
            payload.push(0);
            proof {
                assert(payload@.subrange(0, n as int) =~= buffer@);
            }
            i = i + 1;
        }
        UnparsedCANMessage { id: CANId::from_u32(id), payload, len: n as u8 }
    }
}

} // verus!
