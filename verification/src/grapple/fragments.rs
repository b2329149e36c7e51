//! The fragmentation sublayer: the per-frame fragment shape, the
//! transmit-side splitter and the receive-side reassembler.
//!
//! A payload longer than one frame travels as a Start fragment — carrying
//! the original API class, API index and total byte length in a three-byte
//! header — followed by continuation fragments that carry only payload
//! bytes.  The envelope identifier holds the fragment id in its effective
//! class bits and the sequence number in `api_index`.

use vstd::prelude::*;

verus! {

use crate::MessageId;
use crate::Validate;
use crate::bits::{BitReader, BitWriter, MarshalError};
use crate::grapple::{GrappleDeviceMessage, GrappleDeviceMessageV, GrappleMessageId, MaybeFragment, MaybeFragmentV, MANUFACTURER_GRAPPLE};
use crate::grapple::errors::{GrappleError, GrappleErrorV};
use crate::res_view;

/// Start header or plain continuation.
#[derive(Debug, Clone, Copy, PartialEq, Eq, Structural)]
pub enum FragmentBody {
    /// First fragment: original `api_class`, original `api_index`, total
    /// byte length of the unfragmented body.
    Start { api_class: u8, api_index: u8, total_len: u8 },
    /// Any later fragment; its sequence number travels in the identifier.
    Fragment,
}

/// One frame of a fragment stream.
#[derive(Debug, Clone, PartialEq, Eq)]
pub struct Fragment {
    pub fragment_id: u8,
    pub index: u8,
    pub body: FragmentBody,
    pub payload: Vec<u8>,
}

/// The mathematical model of [`Fragment`].
pub struct FragmentV {
    pub fragment_id: u8,
    pub index: u8,
    pub body: FragmentBody,
    pub payload: Seq<u8>,
}

impl View for Fragment {
    type V = FragmentV;

    open spec fn view(&self) -> FragmentV {
        FragmentV {
            fragment_id: self.fragment_id,
            index: self.index,
            body: self.body,
            payload: self.payload@,
        }
    }
}

impl FragmentV {
    /// The sequence number is zero exactly on the Start fragment, and both
    /// identifier-borne fields fit their four bits.
    pub open spec fn wf(self) -> bool {
        &&& (self.body is Start <==> self.index == 0)
        &&& self.fragment_id < 16
        &&& self.index < 16
    }

    /// The fragment id lands in the effective class bits, the sequence
    /// number in `api_index`, and the fragment bit is raised.
    pub open spec fn spec_update(self, id: GrappleMessageId) -> GrappleMessageId {
        GrappleMessageId {
            fragment_flag: true,
            api_class: self.fragment_id,
            api_index: self.index,
            ..id
        }
    }

    /// The frame bytes: the three-byte Start header if any, then the chunk.
    pub open spec fn spec_bytes(self) -> Seq<u8> {
        match self.body {
            FragmentBody::Start { api_class, api_index, total_len } => seq![
                api_class,
                api_index,
                total_len,
            ] + self.payload,
            FragmentBody::Fragment => self.payload,
        }
    }

    /// What decoding yields from body `b` under envelope identifier `ctx`.
    pub open spec fn spec_read(b: Seq<u8>, ctx: GrappleMessageId) -> Result<
        FragmentV,
        MarshalError,
    > {
        if ctx.api_index == 0 {
            if b.len() < 3 {
                Err(MarshalError::BufferExhausted)
            } else {
                Ok(
                    FragmentV {
                        fragment_id: ctx.api_class,
                        index: 0,
                        body: FragmentBody::Start {
                            api_class: b[0],
                            api_index: b[1],
                            total_len: b[2],
                        },
                        payload: b.subrange(3, b.len() as int),
                    },
                )
            }
        } else {
            Ok(
                FragmentV {
                    fragment_id: ctx.api_class,
                    index: ctx.api_index,
                    body: FragmentBody::Fragment,
                    payload: b,
                },
            )
        }
    }
}

impl Fragment {
    /// Both identifier-borne fields fit their four bits, and the sequence
    /// number is zero exactly on the Start fragment.
    pub fn check_wf(&self) -> (r: bool)
        ensures
            r == self@.wf(),
    {
        let start = match self.body {
            FragmentBody::Start { .. } => true,
            FragmentBody::Fragment => false,
        };
        (start == (self.index == 0)) && self.fragment_id < 16 && self.index < 16
    }

    /// Write the envelope fields into the identifier.
    pub fn update(&self, id: &mut GrappleMessageId)
        ensures
            *final(id) == self@.spec_update(*old(id)),
    {
        id.fragment_flag = true;
        id.api_class = self.fragment_id;
        id.api_index = self.index;
    }

    /// Append the frame bytes.
    pub fn write(&self, w: &mut BitWriter)
        requires
            old(w).inv(),
            old(w).aligned(),
        ensures
            final(w).inv(),
            final(w).aligned(),
            final(w).bytes() == old(w).bytes() + self@.spec_bytes(),
    {
        match self.body {
            FragmentBody::Start { api_class, api_index, total_len } => {
                w.write_u8(api_class);
                w.write_u8(api_index);
                w.write_u8(total_len);
            },
            FragmentBody::Fragment => {},
        }
        w.write_bytes(self.payload.as_slice());
        proof {
            assert(w.bytes() =~= old(w).bytes() + self@.spec_bytes());
        }
    }

    /// Decode a fragment frame: `api_index` zero means Start.
    pub fn read(r: &mut BitReader, ctx: GrappleMessageId) -> (res: Result<Fragment, MarshalError>)
        requires
            old(r).inv(),
            old(r).aligned(),
        ensures
            final(r).inv(),
            final(r).data() == old(r).data(),
            res_view(res) == FragmentV::spec_read(old(r).rest(), ctx),
    {
        let ghost b = old(r).rest();
        if ctx.api_index == 0 {
            let api_class = r.read_u8()?;
            let api_index = r.read_u8()?;
            let total_len = r.read_u8()?;
            let payload = r.read_rest();
            proof {
                assert(api_class == b[0]);
                assert(api_index == b[1]);
                assert(total_len == b[2]);
                assert(payload@ =~= b.subrange(3, b.len() as int));
            }
            Ok(
                Fragment {
                    fragment_id: ctx.api_class,
                    index: 0,
                    body: FragmentBody::Start { api_class, api_index, total_len },
                    payload,
                },
            )
        } else {
            let payload = r.read_rest();
            Ok(
                Fragment {
                    fragment_id: ctx.api_class,
                    index: ctx.api_index,
                    body: FragmentBody::Fragment,
                    payload,
                },
            )
        }
    }
}

/// Decoding an encoded fragment under the identifier the marshalling layer
/// writes restores the fragment exactly.
pub proof fn lemma_fragment_round_trip(f: FragmentV, ctx: GrappleMessageId)
    requires
        f.wf(),
        ctx.api_class == f.fragment_id,
        ctx.api_index == f.index,
    ensures
        FragmentV::spec_read(f.spec_bytes(), ctx) == Ok::<FragmentV, MarshalError>(f),
{
    let b = f.spec_bytes();
    match f.body {
        FragmentBody::Start { api_class, api_index, total_len } => {
            assert(b.subrange(3, b.len() as int) =~= f.payload);
        },
        FragmentBody::Fragment => {},
    }
}

/// One outgoing frame: the unpacked identifier and the payload bytes.
#[derive(Debug, Clone, PartialEq, Eq)]
pub struct TxFrame {
    pub id: MessageId,
    pub data: Vec<u8>,
}

/// The mathematical model of [`TxFrame`].
pub struct TxFrameV {
    pub id: MessageId,
    pub data: Seq<u8>,
}

impl View for TxFrame {
    type V = TxFrameV;

    open spec fn view(&self) -> TxFrameV {
        TxFrameV { id: self.id, data: self.data@ }
    }
}

/// The frame list of a transmitter, as sequences.
pub open spec fn frames_view(v: Seq<TxFrame>) -> Seq<TxFrameV> {
    v.map_values(|f: TxFrame| f@)
}

/// What identifies one reassembly stream: sender coordinates plus the
/// four-bit fragment id.
#[derive(Debug, Clone, Copy, PartialEq, Eq, Structural)]
pub struct FragmentSetKey {
    pub device_id: u8,
    pub device_type: u8,
    pub fragment_idx: u8,
}

/// One in-flight reassembly record.
#[derive(Debug, Clone, PartialEq, Eq)]
pub struct Fragments {
    pub key: FragmentSetKey,
    pub header: Option<(u8, u8, u8)>,
    pub data: Vec<Option<Vec<u8>>>,
    pub last_seen: i64,
}

/// The mathematical model of [`Fragments`].
pub struct FragmentsV {
    pub key: FragmentSetKey,
    pub header: Option<(u8, u8, u8)>,
    pub slots: Seq<Option<Seq<u8>>>,
    pub last_seen: i64,
}

impl View for Fragments {
    type V = FragmentsV;

    open spec fn view(&self) -> FragmentsV {
        FragmentsV {
            key: self.key,
            header: self.header,
            slots: self.data@.map_values(
                |o: Option<Vec<u8>>|
                    match o {
                        Some(v) => Some(v@),
                        None => None,
                    },
            ),
            last_seen: self.last_seen,
        }
    }
}

/// A record survives eviction while the clock has not advanced past the
/// age-off window since it was last touched.
pub open spec fn keep_rec(rec: FragmentsV, now: int, age_off: int) -> bool {
    now - rec.last_seen <= age_off
}

/// The records that survive eviction, in order.
pub open spec fn spec_evict(s: Seq<FragmentsV>, now: int, age_off: int) -> Seq<FragmentsV>
    decreases s.len(),
{
    if s.len() == 0 {
        Seq::<FragmentsV>::empty()
    } else {
        let rest = spec_evict(s.drop_last(), now, age_off);
        if keep_rec(s.last(), now, age_off) {
            rest.push(s.last())
        } else {
            rest
        }
    }
}

/// Index of the first record with the given key, or `-1`.
pub open spec fn spec_find(s: Seq<FragmentsV>, key: FragmentSetKey) -> int
    decreases s.len(),
{
    if s.len() == 0 {
        -1
    } else if s[0].key == key {
        0
    } else {
        let r = spec_find(s.subrange(1, s.len() as int), key);
        if r < 0 {
            -1
        } else {
            1 + r
        }
    }
}

/// `spec_find` names the first matching index.
pub proof fn lemma_find_characterisation(s: Seq<FragmentsV>, key: FragmentSetKey)
    ensures
        spec_find(s, key) == -1 ==> forall|j: int| 0 <= j < s.len() ==> s[j].key != key,
        spec_find(s, key) != -1 ==> {
            &&& 0 <= spec_find(s, key) < s.len()
            &&& s[spec_find(s, key)].key == key
            &&& forall|j: int| 0 <= j < spec_find(s, key) ==> s[j].key != key
        },
    decreases s.len(),
{
    if s.len() > 0 && s[0].key != key {
        let t = s.subrange(1, s.len() as int);
        lemma_find_characterisation(t, key);
        assert forall|j: int| 1 <= j < s.len() implies s[j] == t[j - 1] by {
            assert(t[j - 1] == s[j]);
        }
        if spec_find(t, key) != -1 {
            assert(s[spec_find(s, key)] == t[spec_find(t, key)]);
        }
    }
}

/// Total number of payload bytes held in the slots.
pub open spec fn slots_bytes(slots: Seq<Option<Seq<u8>>>) -> int
    decreases slots.len(),
{
    if slots.len() == 0 {
        0
    } else {
        slots_bytes(slots.drop_last()) + (match slots.last() {
            Some(p) => p.len() as int,
            None => 0,
        })
    }
}

/// The slots concatenated in index order; empty slots contribute nothing.
pub open spec fn slots_concat(slots: Seq<Option<Seq<u8>>>) -> Seq<u8>
    decreases slots.len(),
{
    if slots.len() == 0 {
        Seq::<u8>::empty()
    } else {
        slots_concat(slots.drop_last()) + (match slots.last() {
            Some(p) => p,
            None => Seq::<u8>::empty(),
        })
    }
}

/// Slots grown with empty entries up to length `n`.
pub open spec fn grow_slots(slots: Seq<Option<Seq<u8>>>, n: int) -> Seq<Option<Seq<u8>>> {
    if slots.len() >= n {
        slots
    } else {
        slots + Seq::new((n - slots.len()) as nat, |i: int| None)
    }
}

/// How one arriving fragment rewrites its record: the chunk lands in slot
/// `index` (a duplicate index overwrites), a Start records the header, and
/// the clock is refreshed.  A Start for a record that already has a header
/// is a restarted stream: it replaces the stored chunks; a Start for a
/// headerless record completes an out-of-order delivery and keeps them.
pub open spec fn apply_frag(rec: FragmentsV, f: FragmentV, now: i64) -> FragmentsV {
    let base = if f.body is Start && rec.header is Some {
        Seq::<Option<Seq<u8>>>::empty()
    } else {
        rec.slots
    };
    FragmentsV {
        key: rec.key,
        header: match f.body {
            FragmentBody::Start { api_class, api_index, total_len } => Some(
                (api_class, api_index, total_len),
            ),
            FragmentBody::Fragment => rec.header,
        },
        slots: grow_slots(base, f.index + 1).update(f.index as int, Some(f.payload)),
        last_seen: now,
    }
}

/// A record with no header and no slots.
pub open spec fn fresh_rec(key: FragmentSetKey, now: i64) -> FragmentsV {
    FragmentsV { key, header: None, slots: Seq::<Option<Seq<u8>>>::empty(), last_seen: now }
}

/// A set is complete when a Start has been seen and the received bytes
/// reach the declared total.
pub open spec fn rec_complete(rec: FragmentsV) -> bool {
    match rec.header {
        Some(hdr) => slots_bytes(rec.slots) >= hdr.2,
        None => false,
    }
}

/// The identifier of the reassembled message: header fields inside, outer
/// fields from the envelope.
pub open spec fn reassembled_id(id: MessageId, hdr: (u8, u8, u8)) -> MessageId {
    MessageId {
        device_type: id.device_type,
        manufacturer: MANUFACTURER_GRAPPLE,
        api_class: hdr.0,
        api_index: hdr.1,
        device_id: id.device_id,
    }
}

/// The whole receive step: evict, then classify.  A plain message passes
/// straight through; a fragment lands in its record, and a completed record
/// is removed and decoded (its bytes truncated at the declared total).
pub open spec fn spec_defragment(
    s: Seq<FragmentsV>,
    age_off: int,
    now: i64,
    id: MessageId,
    msg: MaybeFragmentV,
) -> (Seq<FragmentsV>, Result<Option<GrappleDeviceMessageV>, MarshalError>) {
    let ev = spec_evict(s, now as int, age_off);
    match msg {
        MaybeFragmentV::Message(m) => (ev, Ok(Some(m))),
        MaybeFragmentV::Fragment(f) => {
            let key = FragmentSetKey {
                device_id: id.device_id,
                device_type: id.device_type,
                fragment_idx: f.fragment_id,
            };
            let i0 = spec_find(ev, key);
            let s1 = if i0 < 0 {
                ev.push(fresh_rec(key, now))
            } else {
                ev
            };
            let idx = if i0 < 0 {
                ev.len() as int
            } else {
                i0
            };
            let rec = apply_frag(s1[idx], f, now);
            if rec_complete(rec) {
                match rec.header {
                    Some(hdr) => {
                        let bytes = slots_concat(rec.slots).take(hdr.2 as int);
                        let rid = reassembled_id(id, hdr);
                        let s3 = s1.remove(idx);
                        match GrappleDeviceMessageV::spec_read(
                            bytes,
                            GrappleMessageId::spec_from_message_id(rid),
                        ) {
                            Ok(m) => (s3, Ok(Some(m))),
                            Err(e) => (s3, Err(e)),
                        }
                    },
                    None => (s1.update(idx, rec), Ok(None)),
                }
            } else {
                (s1.update(idx, rec), Ok(None))
            }
        },
    }
}

/// The view of a receive result.
pub open spec fn defrag_res_view(r: Result<Option<GrappleDeviceMessage>, MarshalError>) -> Result<
    Option<GrappleDeviceMessageV>,
    MarshalError,
> {
    match r {
        Ok(Some(m)) => Ok(Some(m@)),
        Ok(None) => Ok(None),
        Err(e) => Err(e),
    }
}

/// Receive side: the in-flight reassembly records and the age-off window.
pub struct FragmentReassemblerRx {
    messages: Vec<Fragments>,
    age_off: i64,
}

/// Transmit side: the frame capacity and the rolling fragment id.
pub struct FragmentReassemblerTx {
    max_fragment_size: usize,
    fragment_id: u8,
}

/// Both halves together; `split` hands them out for independent use.
pub struct FragmentReassembler {
    rx: FragmentReassemblerRx,
    tx: FragmentReassemblerTx,
}

impl FragmentReassembler {
    pub fn new(age_off: i64, max_fragment_size: usize) -> (r: FragmentReassembler)
        ensures
            r.rx_ref().records() == Seq::<FragmentsV>::empty(),
            r.rx_ref().age() == age_off,
            r.tx_ref().frag_size() == max_fragment_size,
            r.tx_ref().frag_id() == 0,
    {
        let r = FragmentReassembler {
            rx: FragmentReassemblerRx { messages: Vec::new(), age_off },
            tx: FragmentReassemblerTx { max_fragment_size, fragment_id: 0 },
        };
        proof {
            assert(r.rx_ref().records() =~= Seq::<FragmentsV>::empty());
        }
        r
    }

    pub closed spec fn rx_ref(&self) -> FragmentReassemblerRx {
        self.rx
    }

    pub closed spec fn tx_ref(&self) -> FragmentReassemblerTx {
        self.tx
    }

    /// Hand the two halves out so independent tasks can hold them.
    pub fn split(self) -> (r: (FragmentReassemblerRx, FragmentReassemblerTx))
        ensures
            r.0 == self.rx_ref(),
            r.1 == self.tx_ref(),
    {
        (self.rx, self.tx)
    }
}

impl FragmentReassemblerRx {
    /// The in-flight records.
    pub closed spec fn records(&self) -> Seq<FragmentsV> {
        self.messages@.map_values(|r: Fragments| r@)
    }

    /// The age-off window, in caller ticks.
    pub closed spec fn age(&self) -> int {
        self.age_off as int
    }
}

impl FragmentReassemblerTx {
    /// The frame capacity fragments are cut to.
    pub closed spec fn frag_size(&self) -> int {
        self.max_fragment_size as int
    }

    /// The rolling fragment id counter.
    pub closed spec fn frag_id(&self) -> u8 {
        self.fragment_id
    }

    pub fn set_fragment_size(&mut self, size: usize)
        ensures
            final(self).frag_size() == size,
            final(self).frag_id() == old(self).frag_id(),
    {
        self.max_fragment_size = size;
    }
}

/// The length of the concatenation is the byte count of the slots.
pub proof fn lemma_slots_concat_len(slots: Seq<Option<Seq<u8>>>)
    ensures
        slots_concat(slots).len() == slots_bytes(slots),
    decreases slots.len(),
{
    if slots.len() > 0 {
        lemma_slots_concat_len(slots.drop_last());
    }
}

impl FragmentReassemblerRx {
    /// Find the first record with the given key, or the list length.
    fn find_index(v: &Vec<Fragments>, key: FragmentSetKey) -> (r: usize)
        ensures
            ({
                let s = v@.map_values(|x: Fragments| x@);
                if spec_find(s, key) == -1 {
                    r == v@.len()
                } else {
                    r == spec_find(s, key)
                }
            }),
    {
        let ghost s = v@.map_values(|x: Fragments| x@);
        proof {
            lemma_find_characterisation(s, key);
        }
        let n = v.len();
        let mut j: usize = 0;
        while j < n
            invariant
                n == v@.len(),
                j <= n,
                s == v@.map_values(|x: Fragments| x@),
                forall|k: int| 0 <= k < j ==> s[k].key != key,
                spec_find(s, key) == -1 ==> forall|k: int| 0 <= k < s.len() ==> s[k].key != key,
                spec_find(s, key) != -1 ==> {
                    &&& 0 <= spec_find(s, key) < s.len()
                    &&& s[spec_find(s, key)].key == key
                    &&& forall|k: int| 0 <= k < spec_find(s, key) ==> s[k].key != key
                },
            decreases n - j,
        {
            if v[j].key == key {
                proof {
                    assert(s[j as int].key == key);
                    assert(spec_find(s, key) != -1);
                    if spec_find(s, key) < j {
                        assert(s[spec_find(s, key)].key != key);
                    }
                    if spec_find(s, key) > j {
                        assert(s[j as int].key != key);
                    }
                }
                return j;
            }
            j = j + 1;
        }
        proof {
            if spec_find(s, key) != -1 {
                assert(s[spec_find(s, key)].key != key);
            }
        }
        n
    }

    /// The whole receive step, driven by the caller's clock: evict stale
    /// records, pass plain messages through, store fragments, and surface a
    /// reassembled message exactly once when its set completes.
    #[verifier::rlimit(100)]
    pub fn defragment(&mut self, now: i64, id: &MessageId, message: MaybeFragment) -> (res: Result<
        Option<GrappleDeviceMessage>,
        MarshalError,
    >)
        ensures
            final(self).age() == old(self).age(),
            final(self).records() == spec_defragment(
                old(self).records(),
                old(self).age(),
                now,
                *id,
                message@,
            ).0,
            defrag_res_view(res) == spec_defragment(
                old(self).records(),
                old(self).age(),
                now,
                *id,
                message@,
            ).1,
    {
        let ghost s0 = self.records();
        let ghost age = self.age();
        let ghost orig_v = self.messages@;

        // Age off every record the clock has left behind.
        let mut kept: Vec<Fragments> = Vec::new();
        let n0 = self.messages.len();
        let mut i: usize = 0;
        proof {
            assert(kept@.map_values(|x: Fragments| x@) =~= spec_evict(
                s0.take(0),
                now as int,
                age,
            ));
        }
        while self.messages.len() > 0
            invariant
                age == self.age(),
                n0 == orig_v.len(),
                i + self.messages@.len() == n0,
                self.messages@ == orig_v.skip(i as int),
                s0 == orig_v.map_values(|x: Fragments| x@),
                kept@.map_values(|x: Fragments| x@) == spec_evict(
                    s0.take(i as int),
                    now as int,
                    age,
                ),
            decreases self.messages@.len(),
        {
            let rec = self.messages.remove(0);
            proof {
                assert(orig_v.skip(i as int)[0] == orig_v[i as int]);
                assert(self.messages@ =~= orig_v.skip(i as int + 1));
            }
            let fresh_enough = (now as i128) - (rec.last_seen as i128) <= (self.age_off as i128);
            if fresh_enough {
                kept.push(rec);
            }
            proof {
                assert(s0.take(i as int + 1).drop_last() =~= s0.take(i as int));
                assert(s0.take(i as int + 1).last() == rec@);
                assert(kept@.map_values(|x: Fragments| x@) =~= spec_evict(
                    s0.take(i as int + 1),
                    now as int,
                    age,
                ));
            }
            i = i + 1;
        }
        self.messages = kept;
        proof {
            assert(s0.take(orig_v.len() as int) =~= s0);
            assert(self.records() == spec_evict(s0, now as int, age));
        }
        let ghost ev = self.records();

        let frag = match message {
            MaybeFragment::Message(m) => {
                return Ok(Some(m));
            },
            MaybeFragment::Fragment(f) => f,
        };

        // Find or open the record this fragment belongs to.
        let key = FragmentSetKey {
            device_id: id.device_id,
            device_type: id.device_type,
            fragment_idx: frag.fragment_id,
        };
        proof {
            lemma_find_characterisation(ev, key);
        }
        let mut idx = Self::find_index(&self.messages, key);
        if idx == self.messages.len() {
            let fresh = Fragments { key, header: None, data: Vec::new(), last_seen: now };
            proof {
                assert(fresh@.slots =~= fresh_rec(key, now).slots);
                assert(fresh@ == fresh_rec(key, now));
            }
            self.messages.push(fresh);
            proof {
                assert(self.messages@.map_values(|x: Fragments| x@) =~= ev.push(
                    fresh_rec(key, now),
                ));
            }
        }
        let ghost s1 = self.records();
        let ghost gidx = idx as int;
        proof {
            assert(0 <= gidx < s1.len());
            assert(s1[gidx] == self.messages@[gidx]@);
        }

        // Take the record out, fold the fragment in.
        let ghost msgs1 = self.messages@;
        let mut rec = self.messages.remove(idx);
        let ghost rem_v = self.messages@;
        let ghost rec0 = rec@;
        rec.last_seen = now;
        match frag.body {
            FragmentBody::Start { api_class, api_index, total_len } => {
                if rec.header.is_some() {
                    // A second Start restarts the stream: drop its chunks.
                    rec.data = Vec::new();
                }
                rec.header = Some((api_class, api_index, total_len));
            },
            FragmentBody::Fragment => {},
        }
        let ghost slots0 = if frag@.body is Start && rec0.header is Some {
            Seq::<Option<Seq<u8>>>::empty()
        } else {
            rec0.slots
        };
        proof {
            assert(rec@.slots =~= slots0);
        }
        let need = (frag.index as usize) + 1;
        proof {
            assert(rec@.slots == grow_slots(slots0, rec@.slots.len() as int));
        }
        while rec.data.len() < need
            invariant
                need == frag@.index + 1,
                rec@.slots.len() == rec.data@.len(),
                slots0.len() <= rec@.slots.len(),
                rec@.slots.len() <= need || rec@.slots == slots0,
                rec@.slots == grow_slots(slots0, rec@.slots.len() as int),
                rec.key == rec0.key,
                rec.last_seen == now,
                rec@.header == apply_frag(rec0, frag@, now).header,
            decreases need - rec.data.len(),
        {
            let ghost prev = rec@.slots;
            rec.data.push(None);
            proof {
                let cur = rec@.slots;
                let m = cur.len() as int;
                assert(cur.len() == prev.len() + 1);
                assert forall|k: int| 0 <= k < m implies cur[k] == grow_slots(slots0, m)[k] by {
                    assert(cur[k] == (if k < m - 1 {
                        prev[k]
                    } else {
                        None
                    }));
                    if k < slots0.len() {
                        assert(prev[k] == grow_slots(slots0, m - 1)[k]);
                        assert(grow_slots(slots0, m)[k] == slots0[k]);
                    } else if k < m - 1 {
                        assert(prev[k] == grow_slots(slots0, m - 1)[k]);
                    }
                }
                assert(cur =~= grow_slots(slots0, m));
            }
        }
        proof {
            if slots0.len() >= need {
                assert(rec@.slots == slots0);
            }
            assert(rec@.slots =~= grow_slots(slots0, need as int));
        }
        let ghost grown = rec@;
        rec.data.set(frag.index as usize, Some(frag.payload));
        proof {
            let av = apply_frag(rec0, frag@, now);
            let cur = rec@.slots;
            assert(cur.len() == grown.slots.len());
            assert forall|k: int| 0 <= k < cur.len() implies cur[k] == av.slots[k] by {
                if k == frag@.index {
                    assert(cur[k] == Some(frag@.payload));
                } else {
                    assert(cur[k] == grown.slots[k]);
                }
            }
            assert(cur =~= av.slots);
            assert(rec@ == av);
        }
        let ghost recv = rec@;

        // Completion test: header known and received bytes reach the total.
        let complete: bool = match &rec.header {
            Some(hdr) => {
                let total = hdr.2;
                let n2 = rec.data.len();
                let mut acc: u64 = 0;
                let mut k: usize = 0;
                while k < n2
                    invariant
                        n2 == rec@.slots.len(),
                        k <= n2,
                        rec@ == recv,
                        acc as int == if slots_bytes(recv.slots.take(k as int)) <= 0x10000 {
                            slots_bytes(recv.slots.take(k as int))
                        } else {
                            0x10000int
                        },
                    decreases n2 - k,
                {
                    let l: usize = match &rec.data[k] {
                        Some(p) => p.len(),
                        None => 0,
                    };
                    proof {
                        assert(recv.slots.take(k as int + 1).drop_last() =~= recv.slots.take(
                            k as int,
                        ));
                        assert(recv.slots[k as int] == (match rec.data@[k as int] {
                            Some(v) => Some(v@),
                            None => None::<Seq<u8>>,
                        }));
                    }
                    if l >= 0x10000 {
                        acc = 0x10000;
                    } else if acc + (l as u64) >= 0x10000 {
                        acc = 0x10000;
                    } else {
                        acc = acc + (l as u64);
                    }
                    k = k + 1;
                }
                proof {
                    assert(recv.slots.take(n2 as int) =~= recv.slots);
                }
                acc >= (total as u64)
            },
            None => false,
        };
        proof {
            assert(complete == rec_complete(recv));
        }

        if !complete {
            self.messages.insert(idx, rec);
            proof {
                let after = self.records();
                let target = s1.update(gidx, recv);
                assert(after.len() == target.len());
                assert forall|j: int| 0 <= j < after.len() implies after[j] == target[j] by {
                    assert(after[j] == self.messages@[j]@);
                    if j < gidx {
                        assert(self.messages@[j] == rem_v[j]);
                        assert(rem_v[j] == msgs1[j]);
                    } else if j == gidx {
                        assert(self.messages@[j] == rec);
                    } else {
                        assert(self.messages@[j] == rem_v[j - 1]);
                        assert(rem_v[j - 1] == msgs1[j]);
                    }
                }
                assert(after =~= target);
                assert(spec_defragment(s0, age, now, *id, message@).0 =~= self.records());
            }
            return Ok(None);
        }

        // Reassemble in index order, truncate at the declared total, and
        // decode under the rebuilt identifier.
        let (hc, hi, total) = match &rec.header {
            Some(hdr) => (hdr.0, hdr.1, hdr.2),
            None => {
                proof {
                    assert(false);
                }
                (0, 0, 0)
            },
        };
        let mut bytes: Vec<u8> = Vec::new();
        let n3 = rec.data.len();
        let mut k: usize = 0;
        proof {
            assert(bytes@ =~= slots_concat(recv.slots.take(0)));
        }
        while k < n3
            invariant
                n3 == rec@.slots.len(),
                k <= n3,
                rec@ == recv,
                bytes@ == slots_concat(recv.slots.take(k as int)),
            decreases n3 - k,
        {
            proof {
                assert(recv.slots.take(k as int + 1).drop_last() =~= recv.slots.take(k as int));
                assert(recv.slots[k as int] == (match rec.data@[k as int] {
                    Some(v) => Some(v@),
                    None => None::<Seq<u8>>,
                }));
            }
            match &rec.data[k] {
                Some(p) => {
                    bytes.extend_from_slice(p.as_slice());
                },
                None => {},
            }
            proof {
                assert(bytes@ =~= slots_concat(recv.slots.take(k as int + 1)));
            }
            k = k + 1;
        }
        proof {
            assert(recv.slots.take(n3 as int) =~= recv.slots);
            lemma_slots_concat_len(recv.slots);
        }
        bytes.truncate(total as usize);
        proof {
            assert(bytes@ =~= slots_concat(recv.slots).take(total as int));
        }

        let rid = MessageId {
            device_type: id.device_type,
            manufacturer: MANUFACTURER_GRAPPLE,
            api_class: hc,
            api_index: hi,
            device_id: id.device_id,
        };
        let gid = GrappleMessageId::from_message_id(&rid);
        let ghost bv = bytes@;
        let mut reader = BitReader::new(bytes);
        let out = GrappleDeviceMessage::read(&mut reader, gid);
        proof {
            assert(bv.subrange(0, bv.len() as int) =~= bv);
            let after = self.records();
            let target = s1.remove(gidx);
            assert(after.len() == target.len());
            assert forall|j: int| 0 <= j < after.len() implies after[j] == target[j] by {
                assert(after[j] == rem_v[j]@);
                if j < gidx {
                    assert(rem_v[j] == msgs1[j]);
                } else {
                    assert(rem_v[j] == msgs1[j + 1]);
                }
            }
            assert(after =~= target);
            assert(spec_defragment(s0, age, now, *id, message@).0 =~= self.records());
        }
        match out {
            Ok(m) => Ok(Some(m)),
            Err(e) => Err(e),
        }
    }
}

/// A blank vendor identifier addressed to `device_id`.
pub open spec fn blank_gid(device_id: u8) -> GrappleMessageId {
    GrappleMessageId {
        device_type: 0,
        fragment_flag: false,
        ack_flag: false,
        api_class: 0,
        api_index: 0,
        device_id,
    }
}

/// The packed identifier of the fragment envelope carrying sequence number
/// `index`: outer fields from the message identifier, fragment bit raised,
/// ack bit clear.
pub open spec fn spec_frag_envelope(gid: GrappleMessageId, fid: u8, index: u8) -> MessageId {
    (GrappleMessageId {
        device_type: gid.device_type,
        fragment_flag: true,
        ack_flag: false,
        api_class: fid,
        api_index: index,
        device_id: gid.device_id,
    }).spec_to_message_id()
}

/// Number of frames a body of `len` bytes needs at capacity `fs`: one Start
/// frame carrying `fs - 3` body bytes, then a continuation per further `fs`
/// bytes.
pub open spec fn spec_n_frames(len: int, fs: int) -> int {
    1 + (len - (fs - 3) + fs - 1) / fs
}

/// The continuation count `q` covers the tail: `q` frames of `d` bytes
/// reach at least `x` bytes, and `q - 1` do not.
pub open spec fn ceil_props(q: int, d: int, x: int) -> bool {
    q * d >= x && (q - 1) * d < x
}

/// The frame list of a fragmented body.
pub open spec fn spec_split(gid: GrappleMessageId, body: Seq<u8>, fs: int, fid: u8) -> Seq<
    TxFrameV,
> {
    Seq::new(
        spec_n_frames(body.len() as int, fs) as nat,
        |i: int|
            if i == 0 {
                TxFrameV {
                    id: spec_frag_envelope(gid, fid, 0),
                    data: seq![gid.api_class, gid.api_index, (body.len() as u8)] + body.take(
                        fs - 3,
                    ),
                }
            } else {
                let off = fs - 3 + (i - 1) * fs;
                TxFrameV {
                    id: spec_frag_envelope(gid, fid, i as u8),
                    data: body.subrange(
                        off,
                        if off + fs <= body.len() {
                            off + fs
                        } else {
                            body.len() as int
                        },
                    ),
                }
            },
    )
}

impl FragmentReassemblerTx {
    /// Validate, marshal, and emit: one frame when the body fits the frame
    /// capacity, else a Start frame plus continuations under a fresh
    /// fragment id.  Refused messages emit nothing.  Sequence numbers are
    /// carried in the unpacked identifiers; only the first sixteen frames
    /// survive packing into the four-bit wire field (see
    /// [`lemma_split_indexes_fit_the_wire`]).
    #[verifier::rlimit(50)]
    pub fn maybe_fragment(&mut self, device_id: u8, message: &GrappleDeviceMessage) -> (res:
        Result<Vec<TxFrame>, GrappleError>)
        requires
            old(self).frag_size() >= 4,
        ensures
            final(self).frag_size() == old(self).frag_size(),
            ({
                let gid = message@.spec_update(blank_gid(device_id));
                let body = message@.spec_bytes();
                let fs = old(self).frag_size();
                match message.spec_validate() {
                    Err(ev) => res matches Err(e) && e@ == ev && final(self).frag_id() == old(
                        self,
                    ).frag_id(),
                    Ok(_) => {
                        if !message@.wf() {
                            res matches Err(e) && e@ == GrappleErrorV::ParameterOutOfBounds(
                                "message field exceeds its wire width"@,
                            ) && final(self).frag_id() == old(self).frag_id()
                        } else if body.len() > 253 {
                            res matches Err(e) && e@ == GrappleErrorV::ParameterOutOfBounds(
                                "encoded message exceeds the fragmentable size"@,
                            ) && final(self).frag_id() == old(self).frag_id()
                        } else if body.len() <= fs {
                            res matches Ok(v) && frames_view(v@) == seq![
                                TxFrameV { id: gid.spec_to_message_id(), data: body },
                            ] && final(self).frag_id() == old(self).frag_id()
                        } else {
                            res matches Ok(v) && final(self).frag_id() == ((old(self).frag_id()
                                + 1) % 256) as u8 && frames_view(v@) == spec_split(
                                gid,
                                body,
                                fs,
                                final(self).frag_id(),
                            )
                        }
                    },
                }
            }),
    {
        match message.validate() {
            Err(e) => {
                return Err(e);
            },
            Ok(_) => {},
        }
        if !message.check_wf() {
            return Err(
                GrappleError::ParameterOutOfBounds("message field exceeds its wire width".to_owned()),
            );
        }
        let mut id = GrappleMessageId::new(device_id);
        message.update(&mut id);
        let ghost gid = id;
        let mut w = BitWriter::new();
        message.write(&mut w);
        let body = w.finish();
        let ghost bodyv = body@;
        proof {
            assert(bodyv =~= message@.spec_bytes());
        }
        if body.len() > 253 {
            return Err(
                GrappleError::ParameterOutOfBounds(
                    "encoded message exceeds the fragmentable size".to_owned(),
                ),
            );
        }
        let fs = self.max_fragment_size;
        let len = body.len();
        let mut frames: Vec<TxFrame> = Vec::new();
        if len <= fs {
            frames.push(TxFrame { id: id.to_message_id(), data: body });
            proof {
                assert(frames_view(frames@) =~= seq![
                    TxFrameV { id: gid.spec_to_message_id(), data: bodyv },
                ]);
            }
            return Ok(frames);
        }

        self.fragment_id = self.fragment_id.wrapping_add(1);
        let fid = self.fragment_id;
        let ghost nf = spec_n_frames(len as int, fs as int);
        let first_take = fs - 3;
        let ghost q = ((len - first_take + fs - 1) as int) / (fs as int);
        proof {
            // Pin the ceiling division down: nf - 1 is the least count of
            // fs-byte continuations that covers the tail.
            let x = (len - first_take + fs - 1) as int;
            let d = fs as int;
            vstd::arithmetic::div_mod::lemma_fundamental_div_mod(x, d);
            vstd::arithmetic::div_mod::lemma_mod_bound(x, d);
            assert(nf == 1 + q);
            assert(ceil_props(q, d, len - first_take)) by (nonlinear_arith)
                requires
                    x == d * q + (x % d),
                    0 <= x % d < d,
                    d >= 4,
                    x == len - first_take + d - 1,
                    len > first_take,
            ;
            assert(q >= 1) by (nonlinear_arith)
                requires
                    q * d >= len - first_take,
                    len > first_take,
                    d >= 4,
            ;
            assert(spec_split(gid, bodyv, fs as int, fid).len() == nf);
        }

        let mut sdata: Vec<u8> = Vec::new();
        sdata.push(id.api_class);
        sdata.push(id.api_index);
        sdata.push(len as u8);
        sdata.extend_from_slice(&body.as_slice()[0..first_take]);
        let env0 = GrappleMessageId {
            device_type: id.device_type,
            fragment_flag: true,
            ack_flag: false,
            api_class: fid,
            api_index: 0,
            device_id: id.device_id,
        };
        frames.push(TxFrame { id: env0.to_message_id(), data: sdata });
        proof {
            assert(frames@[0]@.data =~= seq![gid.api_class, gid.api_index, (bodyv.len() as u8)]
                + bodyv.take(fs as int - 3));
            assert(frames_view(frames@) =~= spec_split(gid, bodyv, fs as int, fid).take(1));
        }

        let mut off = first_take;
        let mut i: usize = 1;
        while off < len
            invariant
                4 <= fs <= 253,
                first_take == fs - 3,
                len == bodyv.len(),
                fs < len <= 253,
                nf == 1 + q,
                1 <= q,
                ceil_props(q, fs as int, len - first_take),
                spec_split(gid, bodyv, fs as int, fid).len() == nf,
                1 <= i <= nf,
                i < nf ==> off == first_take + (i - 1) * fs && off < len,
                i == nf ==> off >= len,
                off <= len,
                body@ == bodyv,
                gid == id,
                frames_view(frames@) == spec_split(gid, bodyv, fs as int, fid).take(i as int),
            decreases len - off,
        {
            proof {
                if i >= nf {
                    assert(off >= len);
                }
                assert(i < nf);
            }
            let n = if fs <= len - off {
                fs
            } else {
                len - off
            };
            let mut cdata: Vec<u8> = Vec::new();
            cdata.extend_from_slice(&body.as_slice()[off..off + n]);
            proof {
                assert(cdata@ =~= bodyv.subrange(off as int, off as int + n as int));
            }
            let env = GrappleMessageId {
                device_type: id.device_type,
                fragment_flag: true,
                ack_flag: false,
                api_class: fid,
                api_index: i as u8,
                device_id: id.device_id,
            };
            let eid = env.to_message_id();
            let ghost fprev = frames@;
            frames.push(TxFrame { id: eid, data: cdata });
            proof {
                let sp = spec_split(gid, bodyv, fs as int, fid);
                let ii = i as int;
                let d = fs as int;
                assert(sp.len() == nf);
                assert(0 <= ii < nf);
                assert(frames_view(fprev).len() == fprev.len());
                assert(sp.take(ii).len() == ii);
                assert(fprev.len() == ii);
                assert(frames@.len() == ii + 1);
                assert(frames@[ii]@.id == eid);
                assert(frames@[ii]@.data == cdata@);
                assert(sp[ii] == (TxFrameV {
                    id: spec_frag_envelope(gid, fid, ii as u8),
                    data: bodyv.subrange(
                        d - 3 + (ii - 1) * d,
                        if d - 3 + (ii - 1) * d + d <= bodyv.len() {
                            d - 3 + (ii - 1) * d + d
                        } else {
                            bodyv.len() as int
                        },
                    ),
                }));
                assert(off as int == d - 3 + (ii - 1) * d);
                assert(eid == spec_frag_envelope(gid, fid, ii as u8));
                assert(frames@[ii]@.data =~= sp[ii].data);
                assert(frames@[ii]@.id == sp[ii].id);
                assert(frames_view(frames@) =~= sp.take(ii + 1));
                assert(off as int + d == first_take + ii * d) by (nonlinear_arith)
                    requires
                        off as int == first_take as int + (ii - 1) * d,
                ;
                if i + 1 < nf {
                    // Another full continuation still fits before the tail.
                    assert(ii * d < len - first_take) by (nonlinear_arith)
                        requires
                            ii <= q - 1,
                            (q - 1) * d < len - first_take,
                            d > 0,
                    ;
                    assert(off as int + d < len);
                    assert(n == fs);
                }
                if i + 1 == nf {
                    assert(ii * d >= len - first_take) by (nonlinear_arith)
                        requires
                            ii == q,
                            q * d >= len - first_take,
                    ;
                    assert(off as int + n >= len);
                }
            }
            off = off + n;
            i = i + 1;
        }
        proof {
            assert(i == nf);
            assert(spec_split(gid, bodyv, fs as int, fid).take(nf) =~= spec_split(
                gid,
                bodyv,
                fs as int,
                fid,
            ));
        }
        Ok(frames)
    }
}

/// Every record that survives eviction stood in the list and was fresh
/// enough.
pub proof fn lemma_evict_contains(s: Seq<FragmentsV>, now: int, age_off: int, i: int)
    requires
        0 <= i < spec_evict(s, now, age_off).len(),
    ensures
        exists|j: int|
            0 <= j < s.len() && s[j] == spec_evict(s, now, age_off)[i] && keep_rec(
                s[j],
                now,
                age_off,
            ),
    decreases s.len(),
{
    if s.len() > 0 {
        let rest = spec_evict(s.drop_last(), now, age_off);
        if keep_rec(s.last(), now, age_off) && i == rest.len() {
            assert(s[s.len() - 1] == spec_evict(s, now, age_off)[i]);
        } else {
            lemma_evict_contains(s.drop_last(), now, age_off, i);
            let j = choose|j: int|
                0 <= j < s.drop_last().len() && s.drop_last()[j] == rest[i] && keep_rec(
                    s.drop_last()[j],
                    now,
                    age_off,
                );
            assert(s[j] == spec_evict(s, now, age_off)[i]);
        }
    }
}

/// Eviction leaves a list of fresh records unchanged.
pub proof fn lemma_evict_all_kept(s: Seq<FragmentsV>, now: int, age_off: int)
    requires
        forall|j: int| 0 <= j < s.len() ==> keep_rec(#[trigger] s[j], now, age_off),
    ensures
        spec_evict(s, now, age_off) == s,
    decreases s.len(),
{
    if s.len() > 0 {
        lemma_evict_all_kept(s.drop_last(), now, age_off);
        assert(spec_evict(s, now, age_off) =~= s);
    }
}

/// Age-off: when every record of a stream has been left behind by the
/// clock, a continuation fragment opens a fresh record — the receiver
/// yields nothing, and nothing of the stale stream survives.
pub proof fn lemma_age_off(
    s: Seq<FragmentsV>,
    age_off: int,
    now: i64,
    id: MessageId,
    f: FragmentV,
)
    requires
        forall|j: int|
            0 <= j < s.len() && (#[trigger] s[j]).key == (FragmentSetKey {
                device_id: id.device_id,
                device_type: id.device_type,
                fragment_idx: f.fragment_id,
            }) ==> !keep_rec(s[j], now as int, age_off),
    ensures
        ({
            // Whatever the receiver surfaces comes from a fresh record
            // holding this fragment alone; the stale chunks are gone.  In
            // particular a continuation yields nothing, since the fresh
            // record has no header.
            let fresh = apply_frag(
                fresh_rec(
                    FragmentSetKey {
                        device_id: id.device_id,
                        device_type: id.device_type,
                        fragment_idx: f.fragment_id,
                    },
                    now,
                ),
                f,
                now,
            );
            spec_defragment(s, age_off, now, id, MaybeFragmentV::Fragment(f)).1 == (
            if rec_complete(fresh) {
                complete_out(id, fresh)
            } else {
                Ok::<Option<GrappleDeviceMessageV>, MarshalError>(None)
            })
        }),
        f.body is Fragment ==> spec_defragment(s, age_off, now, id, MaybeFragmentV::Fragment(f)).1
            == Ok::<Option<GrappleDeviceMessageV>, MarshalError>(None),
        forall|j: int|
            0 <= j < spec_defragment(s, age_off, now, id, MaybeFragmentV::Fragment(f)).0.len()
                && (#[trigger] spec_defragment(s, age_off, now, id, MaybeFragmentV::Fragment(
                f,
            )).0[j]).key == (FragmentSetKey {
                device_id: id.device_id,
                device_type: id.device_type,
                fragment_idx: f.fragment_id,
            }) ==> spec_defragment(s, age_off, now, id, MaybeFragmentV::Fragment(f)).0[j]
                == apply_frag(
                fresh_rec(
                    FragmentSetKey {
                        device_id: id.device_id,
                        device_type: id.device_type,
                        fragment_idx: f.fragment_id,
                    },
                    now,
                ),
                f,
                now,
            ),
{
    let key = FragmentSetKey {
        device_id: id.device_id,
        device_type: id.device_type,
        fragment_idx: f.fragment_id,
    };
    let ev = spec_evict(s, now as int, age_off);
    lemma_find_characterisation(ev, key);
    if spec_find(ev, key) != -1 {
        let k = spec_find(ev, key);
        lemma_evict_contains(s, now as int, age_off, k);
        let j = choose|j: int|
            0 <= j < s.len() && s[j] == ev[k] && keep_rec(s[j], now as int, age_off);
        assert(!keep_rec(s[j], now as int, age_off));
        assert(false);
    }
    let rec = apply_frag(fresh_rec(key, now), f, now);
    if f.body is Fragment {
        assert(!rec_complete(rec));
    }
    assert forall|j: int| 0 <= j < ev.len() implies ev[j].key != key by {}
    if rec_complete(rec) {
        assert(ev.push(fresh_rec(key, now)).remove(ev.len() as int) =~= ev);
    }
}

/// A duplicate continuation overwrites its slot and changes nothing:
/// feeding the same fragment again, within the age-off window, leaves the
/// records as they were and again yields nothing.  (A repeated Start is
/// different on purpose: it restarts the stream.)
pub proof fn lemma_duplicate_fragment(
    s: Seq<FragmentsV>,
    age_off: int,
    now: i64,
    id: MessageId,
    f: FragmentV,
)
    requires
        f.body is Fragment,
        age_off >= 0,
        spec_defragment(s, age_off, now, id, MaybeFragmentV::Fragment(f)).1 == Ok::<
            Option<GrappleDeviceMessageV>,
            MarshalError,
        >(None),
    ensures
        ({
            let s1 = spec_defragment(s, age_off, now, id, MaybeFragmentV::Fragment(f)).0;
            spec_defragment(s1, age_off, now, id, MaybeFragmentV::Fragment(f)) == (
                s1,
                Ok::<Option<GrappleDeviceMessageV>, MarshalError>(None),
            )
        }),
{
    let key = FragmentSetKey {
        device_id: id.device_id,
        device_type: id.device_type,
        fragment_idx: f.fragment_id,
    };
    let ev = spec_evict(s, now as int, age_off);
    lemma_find_characterisation(ev, key);
    let i0 = spec_find(ev, key);
    let sa = if i0 < 0 {
        ev.push(fresh_rec(key, now))
    } else {
        ev
    };
    let idx = if i0 < 0 {
        ev.len() as int
    } else {
        i0
    };
    let rec = apply_frag(sa[idx], f, now);
    assert(!rec_complete(rec));
    let s1 = sa.update(idx, rec);

    // Every surviving record is fresh at `now`, so a second eviction is the
    // identity.
    assert forall|j: int| 0 <= j < s1.len() implies keep_rec(
        #[trigger] s1[j],
        now as int,
        age_off,
    ) by {
        if j != idx && j < ev.len() {
            lemma_evict_contains(s, now as int, age_off, j);
        }
    }
    lemma_evict_all_kept(s1, now as int, age_off);

    // The second search lands on the same record.
    lemma_find_characterisation(s1, key);
    assert(s1[idx].key == key);
    assert(spec_find(s1, key) != -1);
    let k2 = spec_find(s1, key);
    if k2 < idx {
        assert(s1[k2].key != key);
        assert(false);
    }
    if k2 > idx {
        assert(false);
    }

    // Folding the same fragment in again changes nothing.
    let rec2 = apply_frag(s1[idx], f, now);
    assert(rec2.slots =~= rec.slots) by {
        assert(grow_slots(rec.slots, f.index + 1) =~= rec.slots);
    }
    assert(rec2 == rec);
    assert(s1.update(idx, rec2) =~= s1);
}

/// A plain (unfragmented) message passes the receiver through unchanged,
/// whatever its state.
pub proof fn lemma_message_passthrough(
    s: Seq<FragmentsV>,
    age_off: int,
    now: i64,
    id: MessageId,
    m: GrappleDeviceMessageV,
)
    ensures
        spec_defragment(s, age_off, now, id, MaybeFragmentV::Message(m)).1 == Ok::<
            Option<GrappleDeviceMessageV>,
            MarshalError,
        >(Some(m)),
{
}

/// A message whose body fits one frame travels as that one frame and is
/// recovered from it: the transmitter emits exactly one frame, its body
/// decodes back to the message under its identifier, and the receiver
/// passes it through.
pub proof fn lemma_single_frame_delivery(
    m: GrappleDeviceMessageV,
    device_id: u8,
    s: Seq<FragmentsV>,
    age_off: int,
    now: i64,
)
    requires
        m.wf(),
    ensures
        ({
            let gid = m.spec_update(blank_gid(device_id));
            let id = gid.spec_to_message_id();
            let body = m.spec_bytes();
            &&& MaybeFragmentV::spec_read(body, GrappleMessageId::spec_from_message_id(id)) == Ok::<
                MaybeFragmentV,
                MarshalError,
            >(MaybeFragmentV::Message(m))
            &&& spec_defragment(s, age_off, now, id, MaybeFragmentV::Message(m)).1 == Ok::<
                Option<GrappleDeviceMessageV>,
                MarshalError,
            >(Some(m))
        }),
{
    let gid = m.spec_update(blank_gid(device_id));
    crate::grapple::lemma_device_message_update_props(m, blank_gid(device_id));
    crate::grapple::lemma_grapple_id_round_trip(gid);
    crate::grapple::lemma_device_message_update_props(m, gid);
    crate::grapple::lemma_device_message_round_trip(m, gid);
}

/// The body bytes that frame `i` of a split carries.
pub open spec fn chunk_at(body: Seq<u8>, fs: int, i: int) -> Seq<u8> {
    if i == 0 {
        body.take(fs - 3)
    } else {
        let off = fs - 3 + (i - 1) * fs;
        body.subrange(
            off,
            if off + fs <= body.len() {
                off + fs
            } else {
                body.len() as int
            },
        )
    }
}

/// The fragment a receiver decodes from frame `i` of a split.
pub open spec fn split_frag(
    gid: GrappleMessageId,
    body: Seq<u8>,
    fs: int,
    fid: u8,
    i: int,
) -> FragmentV {
    FragmentV {
        fragment_id: (fid % 16) as u8,
        index: i as u8,
        body: if i == 0 {
            FragmentBody::Start {
                api_class: gid.api_class,
                api_index: gid.api_index,
                total_len: (body.len() as u8),
            }
        } else {
            FragmentBody::Fragment
        },
        payload: chunk_at(body, fs, i),
    }
}

/// The continuation count of a split covers its tail and nothing less.
pub proof fn lemma_nf_props(len: int, fs: int)
    requires
        4 <= fs < len,
    ensures
        ({
            let q = spec_n_frames(len, fs) - 1;
            &&& q >= 1
            &&& ceil_props(q, fs, len - (fs - 3))
        }),
{
    let x = len - (fs - 3) + fs - 1;
    let d = fs;
    let q = x / d;
    vstd::arithmetic::div_mod::lemma_fundamental_div_mod(x, d);
    vstd::arithmetic::div_mod::lemma_mod_bound(x, d);
    assert(ceil_props(q, d, len - (fs - 3))) by (nonlinear_arith)
        requires
            x == d * q + (x % d),
            0 <= x % d < d,
            d >= 4,
            x == len - (fs - 3) + d - 1,
            len > fs - 3,
    ;
    assert(q >= 1) by (nonlinear_arith)
        requires
            q * d >= len - (fs - 3),
            len > fs - 3,
            d >= 4,
    ;
}

/// Every chunk of a split is nonempty, and the chunks cover the body end
/// to end: chunk `i` runs from `cov(i)` to `cov(i + 1)`.
pub open spec fn cov(body: Seq<u8>, fs: int, k: int) -> int {
    if k == 0 {
        0
    } else {
        let off = fs - 3 + (k - 1) * fs;
        if off <= body.len() {
            off
        } else {
            body.len() as int
        }
    }
}

/// Bounds of one chunk: it is nonempty and runs from `cov(i)` to
/// `cov(i + 1)`.
pub proof fn lemma_chunk_bounds(body: Seq<u8>, fs: int, i: int)
    requires
        4 <= fs < body.len(),
        0 <= i < spec_n_frames(body.len() as int, fs),
    ensures
        chunk_at(body, fs, i) == body.subrange(cov(body, fs, i), cov(body, fs, i + 1)),
        1 <= chunk_at(body, fs, i).len(),
        cov(body, fs, i) < cov(body, fs, i + 1) <= body.len(),
{
    let len = body.len() as int;
    let q = spec_n_frames(len, fs) - 1;
    lemma_nf_props(len, fs);
    if i == 0 {
        assert(chunk_at(body, fs, 0) =~= body.subrange(0, fs - 3));
        assert(cov(body, fs, 1) == fs - 3);
    } else {
        let off = fs - 3 + (i - 1) * fs;
        // Frame i exists, so its chunk starts before the body ends.
        assert((i - 1) * fs <= (q - 1) * fs) by (nonlinear_arith)
            requires
                i - 1 <= q - 1,
                fs > 0,
        ;
        assert(off < len);
        assert(cov(body, fs, i) == off);
        if off + fs <= len {
            assert(fs - 3 + i * fs == off + fs - fs + fs) by (nonlinear_arith)
                requires
                    off == fs - 3 + (i - 1) * fs,
            ;
            assert(fs - 3 + i * fs == off + fs) by (nonlinear_arith)
                requires
                    off == fs - 3 + (i - 1) * fs,
            ;
            assert(cov(body, fs, i + 1) == off + fs);
        } else {
            assert(fs - 3 + i * fs == off + fs) by (nonlinear_arith)
                requires
                    off == fs - 3 + (i - 1) * fs,
            ;
            assert(cov(body, fs, i + 1) == len);
        }
    }
}

/// The full slot table of a split: every chunk in its slot.
pub open spec fn full_slots(body: Seq<u8>, fs: int) -> Seq<Option<Seq<u8>>> {
    Seq::new(
        spec_n_frames(body.len() as int, fs) as nat,
        |j: int| Some(chunk_at(body, fs, j)),
    )
}

/// Concatenating the first `k` chunks rebuilds the body up to `cov(k)`.
pub proof fn lemma_chunks_concat(body: Seq<u8>, fs: int, k: int)
    requires
        4 <= fs < body.len(),
        0 <= k <= spec_n_frames(body.len() as int, fs),
    ensures
        slots_concat(full_slots(body, fs).take(k)) == body.take(cov(body, fs, k)),
    decreases k,
{
    if k == 0 {
        assert(slots_concat(full_slots(body, fs).take(0)) =~= body.take(0));
    } else {
        lemma_chunks_concat(body, fs, k - 1);
        lemma_chunk_bounds(body, fs, k - 1);
        let f = full_slots(body, fs);
        assert(f.take(k).drop_last() =~= f.take(k - 1));
        assert(f.take(k).last() == Some(chunk_at(body, fs, k - 1)));
        assert(body.take(cov(body, fs, k - 1)) + body.subrange(
            cov(body, fs, k - 1),
            cov(body, fs, k),
        ) =~= body.take(cov(body, fs, k)));
    }
}

/// The chunks of a split hold exactly the body bytes.
pub proof fn lemma_full_slots_bytes(body: Seq<u8>, fs: int)
    requires
        4 <= fs < body.len(),
    ensures
        slots_concat(full_slots(body, fs)) == body,
        slots_bytes(full_slots(body, fs)) == body.len(),
{
    let nf = spec_n_frames(body.len() as int, fs);
    let q = nf - 1;
    lemma_nf_props(body.len() as int, fs);
    assert((q - 1) * fs == q * fs - fs) by (nonlinear_arith);
    assert(fs - 3 + (nf - 1) * fs >= body.len());
    assert(cov(body, fs, nf) == body.len());
    lemma_chunks_concat(body, fs, nf);
    assert(full_slots(body, fs).take(nf) =~= full_slots(body, fs));
    assert(body.take(body.len() as int) =~= body);
    lemma_slots_concat_len(full_slots(body, fs));
}

/// Byte counts of slot tables never go negative.
pub proof fn lemma_slots_bytes_nonneg(s: Seq<Option<Seq<u8>>>)
    ensures
        slots_bytes(s) >= 0,
    decreases s.len(),
{
    if s.len() > 0 {
        lemma_slots_bytes_nonneg(s.drop_last());
    }
}

/// A prefix of a slot table holds at most as many bytes.
pub proof fn lemma_slots_bytes_take(s: Seq<Option<Seq<u8>>>, k: int)
    requires
        0 <= k <= s.len(),
    ensures
        slots_bytes(s.take(k)) <= slots_bytes(s),
    decreases s.len(),
{
    if k == s.len() {
        assert(s.take(k) =~= s);
    } else {
        lemma_slots_bytes_take(s.drop_last(), k);
        assert(s.drop_last().take(k) =~= s.take(k));
    }
}

/// A slot table that agrees with another wherever it is filled holds at
/// most as many bytes.
pub proof fn lemma_slots_bytes_pointwise(sub: Seq<Option<Seq<u8>>>, full: Seq<Option<Seq<u8>>>)
    requires
        sub.len() <= full.len(),
        forall|j: int| 0 <= j < sub.len() ==> (#[trigger] sub[j]) is None || sub[j] == full[j],
    ensures
        slots_bytes(sub) <= slots_bytes(full),
    decreases sub.len(),
{
    let pre = full.take(sub.len() as int);
    lemma_slots_bytes_take(full, sub.len() as int);
    lemma_slots_bytes_pointwise_eq(sub, pre);
}

/// The equal-length core of the pointwise bound.
proof fn lemma_slots_bytes_pointwise_eq(sub: Seq<Option<Seq<u8>>>, full: Seq<Option<Seq<u8>>>)
    requires
        sub.len() == full.len(),
        forall|j: int| 0 <= j < sub.len() ==> (#[trigger] sub[j]) is None || sub[j] == full[j],
    ensures
        slots_bytes(sub) <= slots_bytes(full),
    decreases sub.len(),
{
    if sub.len() > 0 {
        lemma_slots_bytes_pointwise_eq(sub.drop_last(), full.drop_last());
        lemma_slots_bytes_nonneg(sub.drop_last());
    }
}

/// Emptying one slot takes exactly its bytes away.
pub proof fn lemma_slots_bytes_update_none(s: Seq<Option<Seq<u8>>>, j: int)
    requires
        0 <= j < s.len(),
    ensures
        slots_bytes(s.update(j, None)) == slots_bytes(s) - (match s[j] {
            Some(p) => p.len() as int,
            None => 0,
        }),
    decreases s.len(),
{
    if j == s.len() - 1 {
        assert(s.update(j, None).drop_last() =~= s.drop_last());
    } else {
        lemma_slots_bytes_update_none(s.drop_last(), j);
        assert(s.update(j, None).drop_last() =~= s.drop_last().update(j, None));
    }
}

/// The record grown by folding in the listed frames of a split, in order.
pub open spec fn rec_after(
    key: FragmentSetKey,
    gid: GrappleMessageId,
    body: Seq<u8>,
    fs: int,
    fid: u8,
    now: i64,
    fed: Seq<int>,
) -> FragmentsV
    decreases fed.len(),
{
    if fed.len() == 0 {
        fresh_rec(key, now)
    } else {
        apply_frag(
            rec_after(key, gid, body, fs, fid, now, fed.drop_last()),
            split_frag(gid, body, fs, fid, fed.last()),
            now,
        )
    }
}

/// What a partly-fed record looks like: each fed frame sits in its slot,
/// every other slot is empty, and the header is known exactly when the
/// Start frame is among the fed.
pub proof fn lemma_rec_after_props(
    key: FragmentSetKey,
    gid: GrappleMessageId,
    body: Seq<u8>,
    fs: int,
    fid: u8,
    now: i64,
    fed: Seq<int>,
)
    requires
        4 <= fs < body.len() <= 253,
        forall|t: int| 0 <= t < fed.len() ==> 0 <= #[trigger] fed[t] < spec_n_frames(
            body.len() as int,
            fs,
        ),
        forall|u: int, v: int| 0 <= u < v < fed.len() ==> #[trigger] fed[u] != #[trigger] fed[v],
    ensures
        ({
            let r = rec_after(key, gid, body, fs, fid, now, fed);
            &&& r.key == key
            &&& r.last_seen == now
            &&& r.slots.len() <= spec_n_frames(body.len() as int, fs)
            &&& forall|j: int|
                0 <= j < r.slots.len() ==> #[trigger] r.slots[j] == (if fed.contains(j) {
                    Some(chunk_at(body, fs, j))
                } else {
                    None::<Seq<u8>>
                })
            &&& r.header == (if fed.contains(0) {
                Some((gid.api_class, gid.api_index, (body.len() as u8)))
            } else {
                None::<(u8, u8, u8)>
            })
            &&& forall|t: int| 0 <= t < fed.len() ==> #[trigger] fed[t] < r.slots.len()
        }),
    decreases fed.len(),
{
    let nf = spec_n_frames(body.len() as int, fs);
    let r = rec_after(key, gid, body, fs, fid, now, fed);
    if fed.len() == 0 {
        assert forall|j: int| 0 <= j < r.slots.len() implies #[trigger] r.slots[j] == (
        if fed.contains(j) {
            Some(chunk_at(body, fs, j))
        } else {
            None::<Seq<u8>>
        }) by {}
    } else {
        let init = fed.drop_last();
        let last = fed.last();
        assert forall|u: int, v: int| 0 <= u < v < init.len() implies #[trigger] init[u]
            != #[trigger] init[v] by {
            assert(init[u] == fed[u] && init[v] == fed[v]);
        }
        lemma_rec_after_props(key, gid, body, fs, fid, now, init);
        let r0 = rec_after(key, gid, body, fs, fid, now, init);
        let f = split_frag(gid, body, fs, fid, last);
        // The fragment index survives the byte cast: frame counts stay
        // far below 256.
        lemma_nf_props(body.len() as int, fs);
        let q = nf - 1;
        assert((q - 1) * 4 <= (q - 1) * fs) by (nonlinear_arith)
            requires
                q >= 1,
                fs >= 4,
        ;
        assert(nf <= 65);
        assert(f.index as int == last);
        assert(r.slots =~= grow_slots(r0.slots, last + 1).update(last, Some(f.payload)));
        // Membership in the grown list is membership in the old list, or
        // being the newly fed frame.
        assert forall|j: int| 0 <= j < r.slots.len() implies #[trigger] r.slots[j] == (
        if fed.contains(j) {
            Some(chunk_at(body, fs, j))
        } else {
            None::<Seq<u8>>
        }) by {
            if j == last {
                assert(fed[fed.len() - 1] == j);
                assert(fed.contains(j));
            } else {
                if init.contains(j) {
                    let w = choose|w: int| 0 <= w < init.len() && init[w] == j;
                    assert(fed[w] == j);
                    assert(fed.contains(j));
                } else if fed.contains(j) {
                    let w = choose|w: int| 0 <= w < fed.len() && fed[w] == j;
                    assert(w < fed.len() - 1 ==> init[w] == j);
                    assert(false);
                }
            }
        }
        if last == 0 {
            assert(fed[fed.len() - 1] == 0);
            assert(fed.contains(0));
        } else {
            if init.contains(0) {
                let w = choose|w: int| 0 <= w < init.len() && init[w] == 0;
                assert(fed[w] == 0);
                assert(fed.contains(0));
            } else if fed.contains(0) {
                let w = choose|w: int| 0 <= w < fed.len() && fed[w] == 0;
                assert(w < fed.len() - 1 ==> init[w] == 0);
                assert(false);
            }
        }
        assert forall|t: int| 0 <= t < fed.len() implies #[trigger] fed[t] < r.slots.len() by {
            if t < fed.len() - 1 {
                assert(init[t] == fed[t]);
                assert(init[t] < r0.slots.len());
            }
        }
    }
}

/// A record grown from the same frames differs only in its clock: the
/// chunks and header never depend on when they arrived.
pub proof fn lemma_rec_after_time_shift(
    key: FragmentSetKey,
    gid: GrappleMessageId,
    body: Seq<u8>,
    fs: int,
    fid: u8,
    n1: i64,
    n2: i64,
    fed: Seq<int>,
)
    ensures
        rec_after(key, gid, body, fs, fid, n1, fed).key == rec_after(
            key,
            gid,
            body,
            fs,
            fid,
            n2,
            fed,
        ).key,
        rec_after(key, gid, body, fs, fid, n1, fed).header == rec_after(
            key,
            gid,
            body,
            fs,
            fid,
            n2,
            fed,
        ).header,
        rec_after(key, gid, body, fs, fid, n1, fed).slots == rec_after(
            key,
            gid,
            body,
            fs,
            fid,
            n2,
            fed,
        ).slots,
        rec_after(key, gid, body, fs, fid, n1, fed).last_seen == n1,
    decreases fed.len(),
{
    if fed.len() > 0 {
        lemma_rec_after_time_shift(key, gid, body, fs, fid, n1, n2, fed.drop_last());
    }
}

/// Feeding a run of fragments-or-messages through the receiver, one per
/// listed clock tick: the final state and the output of every step.
pub open spec fn spec_feed(
    s: Seq<FragmentsV>,
    age_off: int,
    times: Seq<i64>,
    id: MessageId,
    msgs: Seq<MaybeFragmentV>,
) -> (Seq<FragmentsV>, Seq<Result<Option<GrappleDeviceMessageV>, MarshalError>>)
    decreases msgs.len(),
{
    if msgs.len() == 0 {
        (s, Seq::<Result<Option<GrappleDeviceMessageV>, MarshalError>>::empty())
    } else {
        let prev = spec_feed(s, age_off, times, id, msgs.drop_last());
        let step = spec_defragment(
            prev.0,
            age_off,
            times[msgs.len() - 1],
            id,
            msgs.last(),
        );
        (step.0, prev.1.push(step.1))
    }
}

/// What the receiver surfaces when a record completes: the slots,
/// truncated at the declared total, decoded under the rebuilt identifier.
pub open spec fn complete_out(id: MessageId, rec: FragmentsV) -> Result<
    Option<GrappleDeviceMessageV>,
    MarshalError,
> {
    match rec.header {
        Some(hdr) => match GrappleDeviceMessageV::spec_read(
            slots_concat(rec.slots).take(hdr.2 as int),
            GrappleMessageId::spec_from_message_id(reassembled_id(id, hdr)),
        ) {
            Ok(m) => Ok(Some(m)),
            Err(e) => Err(e),
        },
        None => Ok(None),
    }
}

/// One receive step on the single record of a stream, last touched at
/// `prev` and now fed at `now`, still inside the age-off window: the
/// fragment folds into the record; the step completes exactly when the
/// grown record does.
proof fn lemma_feed_step_core(
    key: FragmentSetKey,
    gid: GrappleMessageId,
    body: Seq<u8>,
    fs: int,
    fid: u8,
    age_off: int,
    prev: i64,
    now: i64,
    id: MessageId,
    fed: Seq<int>,
    tv: int,
)
    requires
        4 <= fs < body.len() <= 253,
        age_off >= 0,
        fed.len() > 0 ==> 0 <= now - prev <= age_off,
        0 <= tv < spec_n_frames(body.len() as int, fs),
        forall|t: int| 0 <= t < fed.len() ==> 0 <= #[trigger] fed[t] < spec_n_frames(
            body.len() as int,
            fs,
        ),
        forall|u: int, v: int| 0 <= u < v < fed.len() ==> #[trigger] fed[u] != #[trigger] fed[v],
        key == (FragmentSetKey {
            device_id: id.device_id,
            device_type: id.device_type,
            fragment_idx: ((fid % 16) as u8),
        }),
    ensures
        ({
            let state: Seq<FragmentsV> = if fed.len() == 0 {
                Seq::empty()
            } else {
                seq![rec_after(key, gid, body, fs, fid, prev, fed)]
            };
            let r2 = rec_after(key, gid, body, fs, fid, now, fed.push(tv));
            let d = spec_defragment(
                state,
                age_off,
                now,
                id,
                MaybeFragmentV::Fragment(split_frag(gid, body, fs, fid, tv)),
            );
            &&& (!rec_complete(r2) ==> d == (
                seq![r2],
                Ok::<Option<GrappleDeviceMessageV>, MarshalError>(None),
            ))
            &&& (rec_complete(r2) ==> d == (Seq::<FragmentsV>::empty(), complete_out(id, r2)))
        }),
{
    let state: Seq<FragmentsV> = if fed.len() == 0 {
        Seq::empty()
    } else {
        seq![rec_after(key, gid, body, fs, fid, prev, fed)]
    };
    let f = split_frag(gid, body, fs, fid, tv);
    let r1 = rec_after(key, gid, body, fs, fid, prev, fed);
    let rnow = rec_after(key, gid, body, fs, fid, now, fed);
    let r2 = rec_after(key, gid, body, fs, fid, now, fed.push(tv));
    lemma_rec_after_props(key, gid, body, fs, fid, prev, fed);
    lemma_rec_after_time_shift(key, gid, body, fs, fid, prev, now, fed);
    assert forall|j: int| 0 <= j < state.len() implies keep_rec(
        #[trigger] state[j],
        now as int,
        age_off,
    ) by {
        assert(state[j].last_seen == prev);
    }
    lemma_evict_all_kept(state, now as int, age_off);
    let ev = spec_evict(state, now as int, age_off);
    assert(ev == state);
    let sa = if fed.len() == 0 {
        ev.push(fresh_rec(key, now))
    } else {
        ev
    };
    assert(fed.push(tv).drop_last() =~= fed);
    assert(fed.push(tv).last() == tv);
    if fed.len() == 0 {
        assert(spec_find(ev, key) == -1);
        assert(sa[0] == fresh_rec(key, now));
        assert(apply_frag(sa[0], f, now) == r2);
    } else {
        assert(ev[0].key == key);
        assert(spec_find(ev, key) == 0);
        assert(sa[0] == r1);
        // The record's chunks and header do not depend on its clock, so
        // folding the fragment into the `prev`-stamped record gives the
        // `now`-stamped result.
        assert(apply_frag(r1, f, now) == apply_frag(rnow, f, now));
        assert(apply_frag(sa[0], f, now) == r2);
    }
    assert(sa.len() == 1);
    if !rec_complete(r2) {
        assert(sa.update(0, r2) =~= seq![r2]);
    } else {
        assert(sa.remove(0) =~= Seq::<FragmentsV>::empty());
    }
}

/// A record missing any one frame of its split is incomplete: every chunk
/// is nonempty, so the received bytes fall short of the declared total.
proof fn lemma_partial_incomplete(
    key: FragmentSetKey,
    gid: GrappleMessageId,
    body: Seq<u8>,
    fs: int,
    fid: u8,
    now: i64,
    fed: Seq<int>,
    missing: int,
)
    requires
        4 <= fs < body.len() <= 253,
        forall|t: int| 0 <= t < fed.len() ==> 0 <= #[trigger] fed[t] < spec_n_frames(
            body.len() as int,
            fs,
        ),
        forall|u: int, v: int| 0 <= u < v < fed.len() ==> #[trigger] fed[u] != #[trigger] fed[v],
        0 <= missing < spec_n_frames(body.len() as int, fs),
        !fed.contains(missing),
    ensures
        !rec_complete(rec_after(key, gid, body, fs, fid, now, fed)),
{
    let nf = spec_n_frames(body.len() as int, fs);
    let len = body.len() as int;
    let r = rec_after(key, gid, body, fs, fid, now, fed);
    lemma_rec_after_props(key, gid, body, fs, fid, now, fed);
    match r.header {
        None => {},
        Some(hdr) => {
            let full = full_slots(body, fs);
            let dampened = full.update(missing, None);
            assert forall|j: int| 0 <= j < r.slots.len() implies (#[trigger] r.slots[j]) is None
                || r.slots[j] == dampened[j] by {
                if j != missing && fed.contains(j) {
                    assert(r.slots[j] == Some(chunk_at(body, fs, j)));
                    assert(dampened[j] == Some(chunk_at(body, fs, j)));
                }
            }
            lemma_slots_bytes_pointwise(r.slots, dampened);
            lemma_slots_bytes_update_none(full, missing);
            lemma_full_slots_bytes(body, fs);
            lemma_chunk_bounds(body, fs, missing);
            assert(slots_bytes(r.slots) <= len - 1);
            assert(hdr.2 == len);
        },
    }
}

/// A record holding every frame of its split is complete, and what it
/// surfaces is the original message.
proof fn lemma_full_complete(
    m: GrappleDeviceMessageV,
    key: FragmentSetKey,
    gid: GrappleMessageId,
    body: Seq<u8>,
    fs: int,
    fid: u8,
    now: i64,
    id: MessageId,
    fed: Seq<int>,
)
    requires
        m.wf(),
        4 <= fs < body.len() <= 253,
        body == m.spec_bytes(),
        gid == m.spec_update(
            GrappleMessageId {
                device_type: 0,
                fragment_flag: false,
                ack_flag: false,
                api_class: 0,
                api_index: 0,
                device_id: gid.device_id,
            },
        ),
        id.device_type == gid.device_type,
        id.device_id == gid.device_id,
        forall|t: int| 0 <= t < fed.len() ==> 0 <= #[trigger] fed[t] < spec_n_frames(
            body.len() as int,
            fs,
        ),
        forall|u: int, v: int| 0 <= u < v < fed.len() ==> #[trigger] fed[u] != #[trigger] fed[v],
        forall|v: int|
            0 <= v < spec_n_frames(body.len() as int, fs) ==> fed.contains(v),
    ensures
        rec_complete(rec_after(key, gid, body, fs, fid, now, fed)),
        complete_out(id, rec_after(key, gid, body, fs, fid, now, fed)) == Ok::<
            Option<GrappleDeviceMessageV>,
            MarshalError,
        >(Some(m)),
{
    let nf = spec_n_frames(body.len() as int, fs);
    let len = body.len() as int;
    let r = rec_after(key, gid, body, fs, fid, now, fed);
    lemma_rec_after_props(key, gid, body, fs, fid, now, fed);
    // Every slot is filled, so the table is the full split.
    assert(fed.contains(nf - 1));
    let w = choose|w: int| 0 <= w < fed.len() && fed[w] == nf - 1;
    assert(fed[w] < r.slots.len());
    assert(r.slots.len() == nf);
    assert forall|j: int| 0 <= j < nf implies r.slots[j] == full_slots(body, fs)[j] by {
        assert(fed.contains(j));
    }
    assert(r.slots =~= full_slots(body, fs));
    lemma_full_slots_bytes(body, fs);
    assert(fed.contains(0));
    assert(r.header == Some((gid.api_class, gid.api_index, (len as u8))));
    assert(rec_complete(r));
    // The rebuilt identifier is the one marshalling wrote.
    let blank = GrappleMessageId {
        device_type: 0,
        fragment_flag: false,
        ack_flag: false,
        api_class: 0,
        api_index: 0,
        device_id: gid.device_id,
    };
    crate::grapple::lemma_device_message_update_props(m, blank);
    let rid = reassembled_id(id, (gid.api_class, gid.api_index, (len as u8)));
    assert(rid == gid.spec_to_message_id());
    crate::grapple::lemma_grapple_id_round_trip(gid);
    assert(GrappleMessageId::spec_from_message_id(rid) == gid);
    crate::grapple::lemma_device_message_update_props(m, gid);
    crate::grapple::lemma_device_message_round_trip(m, gid);
    assert(slots_concat(r.slots).take(len) =~= body);
}

/// Feeding the first `t` frames of a split, in any order: every step so
/// far yields nothing (the set completes only on the very last frame), and
/// the single record holds exactly the fed chunks.
#[verifier::rlimit(100)]
#[verifier::spinoff_prover]
proof fn lemma_feed_prefix(
    m: GrappleDeviceMessageV,
    gid: GrappleMessageId,
    body: Seq<u8>,
    fs: int,
    fid: u8,
    age_off: int,
    times: Seq<i64>,
    id: MessageId,
    order: Seq<int>,
    t: int,
)
    requires
        m.wf(),
        4 <= fs < body.len() <= 253,
        age_off >= 0,
        body == m.spec_bytes(),
        gid == m.spec_update(
            GrappleMessageId {
                device_type: 0,
                fragment_flag: false,
                ack_flag: false,
                api_class: 0,
                api_index: 0,
                device_id: gid.device_id,
            },
        ),
        id.device_type == gid.device_type,
        id.device_id == gid.device_id,
        order.len() == spec_n_frames(body.len() as int, fs),
        forall|u: int| 0 <= u < order.len() ==> 0 <= #[trigger] order[u] < order.len(),
        forall|u: int, v: int|
            0 <= u < v < order.len() ==> #[trigger] order[u] != #[trigger] order[v],
        forall|v: int| 0 <= v < order.len() ==> order.contains(v),
        times.len() == order.len(),
        forall|u: int|
            1 <= u < times.len() ==> 0 <= #[trigger] times[u] - times[u - 1] <= age_off,
        0 <= t <= order.len(),
    ensures
        ({
            let nf = order.len() as int;
            let key = FragmentSetKey {
                device_id: id.device_id,
                device_type: id.device_type,
                fragment_idx: ((fid % 16) as u8),
            };
            let msgs = Seq::new(
                nf as nat,
                |u: int| MaybeFragmentV::Fragment(split_frag(gid, body, fs, fid, order[u])),
            );
            let fd = spec_feed(Seq::empty(), age_off, times, id, msgs.take(t));
            &&& fd.0 == (if t == 0 || t == nf {
                Seq::<FragmentsV>::empty()
            } else {
                seq![rec_after(key, gid, body, fs, fid, times[t - 1], order.take(t))]
            })
            &&& fd.1.len() == t
            &&& forall|u: int|
                0 <= u < t ==> #[trigger] fd.1[u] == (if u < nf - 1 {
                    Ok::<Option<GrappleDeviceMessageV>, MarshalError>(None)
                } else {
                    Ok::<Option<GrappleDeviceMessageV>, MarshalError>(Some(m))
                })
        }),
    decreases t,
{
    let nf = order.len() as int;
    let key = FragmentSetKey {
        device_id: id.device_id,
        device_type: id.device_type,
        fragment_idx: ((fid % 16) as u8),
    };
    let msgs = Seq::new(
        nf as nat,
        |u: int| MaybeFragmentV::Fragment(split_frag(gid, body, fs, fid, order[u])),
    );
    if t == 0 {
        assert(msgs.take(0) =~= Seq::<MaybeFragmentV>::empty());
    } else {
        lemma_feed_prefix(m, gid, body, fs, fid, age_off, times, id, order, t - 1);
        let fed = order.take(t - 1);
        let tv = order[t - 1];
        let prevt: i64 = if t >= 2 {
            times[t - 2]
        } else {
            times[0]
        };
        let nowt: i64 = times[t - 1];
        assert(msgs.take(t).drop_last() =~= msgs.take(t - 1));
        assert(msgs.take(t).last() == MaybeFragmentV::Fragment(split_frag(gid, body, fs, fid, tv)));
        assert forall|u: int| 0 <= u < fed.len() implies 0 <= #[trigger] fed[u] < nf by {
            assert(fed[u] == order[u]);
        }
        assert forall|u: int, v: int| 0 <= u < v < fed.len() implies #[trigger] fed[u]
            != #[trigger] fed[v] by {
            assert(fed[u] == order[u] && fed[v] == order[v]);
        }
        lemma_feed_step_core(key, gid, body, fs, fid, age_off, prevt, nowt, id, fed, tv);
        assert(fed.push(tv) =~= order.take(t));
        if t < nf {
            // The frame still to come is not among the fed ones.
            let missing = order[t];
            assert(!order.take(t).contains(missing)) by {
                if order.take(t).contains(missing) {
                    let w = choose|w: int|
                        0 <= w < order.take(t).len() && order.take(t)[w] == missing;
                    assert(order[w] == order[t]);
                    assert(false);
                }
            }
            assert forall|u: int, v: int| 0 <= u < v < order.take(t).len() implies
                #[trigger] order.take(t)[u] != #[trigger] order.take(t)[v] by {
                assert(order.take(t)[u] == order[u] && order.take(t)[v] == order[v]);
            }
            lemma_partial_incomplete(key, gid, body, fs, fid, nowt, order.take(t), missing);
        } else {
            assert(order.take(nf) =~= order);
            assert forall|v: int| 0 <= v < nf implies order.take(nf).contains(v) by {}
            assert forall|u: int, v: int| 0 <= u < v < order.take(t).len() implies
                #[trigger] order.take(t)[u] != #[trigger] order.take(t)[v] by {
                assert(order.take(t)[u] == order[u] && order.take(t)[v] == order[v]);
            }
            lemma_full_complete(m, key, gid, body, fs, fid, nowt, id, order.take(t));
        }
    }
}

/// Fragmented delivery in any order: a message whose body exceeds the
/// frame capacity splits into `1 + ceil((L - (F-3)) / F)` frames; each
/// frame decodes to its fragment under its own identifier; and feeding all
/// the fragments to a fresh receiver, in any order and at any clock ticks
/// that never advance past the age-off window between frames, yields the
/// message exactly once — at the final frame, and never before.
#[verifier::rlimit(100)]
#[verifier::spinoff_prover]
pub proof fn lemma_fragmented_delivery_any_order(
    m: GrappleDeviceMessageV,
    device_id: u8,
    fs: int,
    fid: u8,
    age_off: int,
    times: Seq<i64>,
    id: MessageId,
    order: Seq<int>,
)
    requires
        m.wf(),
        age_off >= 0,
        4 <= fs < m.spec_bytes().len() <= 253,
        id.device_type == m.spec_update(blank_gid(device_id)).device_type,
        id.device_id == device_id,
        order.len() == spec_n_frames(m.spec_bytes().len() as int, fs),
        forall|u: int| 0 <= u < order.len() ==> 0 <= #[trigger] order[u] < order.len(),
        forall|u: int, v: int|
            0 <= u < v < order.len() ==> #[trigger] order[u] != #[trigger] order[v],
        forall|v: int| 0 <= v < order.len() ==> order.contains(v),
        times.len() == order.len(),
        forall|u: int|
            1 <= u < times.len() ==> 0 <= #[trigger] times[u] - times[u - 1] <= age_off,
    ensures
        ({
            let gid = m.spec_update(blank_gid(device_id));
            let body = m.spec_bytes();
            let nf = order.len() as int;
            let sp = spec_split(gid, body, fs, fid);
            let msgs = Seq::new(
                nf as nat,
                |u: int| MaybeFragmentV::Fragment(split_frag(gid, body, fs, fid, order[u])),
            );
            let outs = spec_feed(Seq::empty(), age_off, times, id, msgs).1;
            &&& sp.len() == nf
            &&& forall|i: int|
                0 <= i < nf ==> MaybeFragmentV::spec_read(
                    (#[trigger] sp[i]).data,
                    GrappleMessageId::spec_from_message_id(sp[i].id),
                ) == Ok::<MaybeFragmentV, MarshalError>(
                    MaybeFragmentV::Fragment(split_frag(gid, body, fs, fid, i)),
                )
            &&& outs.len() == nf
            &&& forall|u: int|
                0 <= u < nf - 1 ==> #[trigger] outs[u] == Ok::<
                    Option<GrappleDeviceMessageV>,
                    MarshalError,
                >(None)
            &&& outs[nf - 1] == Ok::<Option<GrappleDeviceMessageV>, MarshalError>(Some(m))
        }),
{
    let gid = m.spec_update(blank_gid(device_id));
    let body = m.spec_bytes();
    let nf = order.len() as int;
    let sp = spec_split(gid, body, fs, fid);
    crate::grapple::lemma_device_message_update_props(m, blank_gid(device_id));
    lemma_nf_props(body.len() as int, fs);
    let q = nf - 1;
    assert((q - 1) * 4 <= (q - 1) * fs) by (nonlinear_arith)
        requires
            q >= 1,
            fs >= 4,
    ;
    assert(nf <= 65);
    assert forall|i: int| 0 <= i < nf implies MaybeFragmentV::spec_read(
        (#[trigger] sp[i]).data,
        GrappleMessageId::spec_from_message_id(sp[i].id),
    ) == Ok::<MaybeFragmentV, MarshalError>(
        MaybeFragmentV::Fragment(split_frag(gid, body, fs, fid, i)),
    ) by {
        // The envelope identifier round-trips with its class bits masked
        // to the effective four.
        let env = GrappleMessageId {
            device_type: gid.device_type,
            fragment_flag: true,
            ack_flag: false,
            api_class: ((fid % 16) as u8),
            api_index: (i as u8),
            device_id: gid.device_id,
        };
        crate::grapple::lemma_grapple_id_round_trip(env);
        assert(env.spec_to_message_id() == sp[i].id);
        assert(GrappleMessageId::spec_from_message_id(sp[i].id) == env);
        if i == 0 {
            assert(sp[0].data.len() >= 3);
            assert(sp[0].data[0] == gid.api_class);
            assert(sp[0].data[1] == gid.api_index);
            assert(sp[0].data[2] == body.len() as u8);
            assert(sp[0].data.subrange(3, sp[0].data.len() as int) =~= chunk_at(body, fs, 0));
        } else {
            assert(env.api_index != 0);
            assert(sp[i].data =~= chunk_at(body, fs, i));
        }
    }
    lemma_feed_prefix(m, gid, body, fs, fid, age_off, times, id, order, nf);
    let msgs = Seq::new(
        nf as nat,
        |u: int| MaybeFragmentV::Fragment(split_frag(gid, body, fs, fid, order[u])),
    );
    assert(msgs.take(nf) =~= msgs);
}

/// The four-bit sequence field of the packed identifier is faithful for
/// any body that needs at most sixteen frames — up to `(F-3) + 15*F`
/// bytes, 125 at the classic frame capacity of eight.  Longer bodies still
/// split and reassemble correctly over unpacked identifiers, but packing
/// to the 29-bit wire form truncates sequence numbers past fifteen.
pub proof fn lemma_split_indexes_fit_the_wire(
    gid: GrappleMessageId,
    body: Seq<u8>,
    fs: int,
    fid: u8,
)
    requires
        4 <= fs < body.len() <= 253,
        body.len() <= fs - 3 + 15 * fs,
    ensures
        spec_split(gid, body, fs, fid).len() <= 16,
        forall|i: int|
            0 <= i < spec_split(gid, body, fs, fid).len() ==> (#[trigger] spec_split(
                gid,
                body,
                fs,
                fid,
            )[i]).id.api_index == i,
{
    let len = body.len() as int;
    let nf = spec_n_frames(len, fs);
    let q = nf - 1;
    lemma_nf_props(len, fs);
    assert(q <= 15) by (nonlinear_arith)
        requires
            (q - 1) * fs < len - (fs - 3),
            len <= fs - 3 + 15 * fs,
            fs > 0,
            q >= 1,
    ;
    assert forall|i: int| 0 <= i < spec_split(gid, body, fs, fid).len() implies (
    #[trigger] spec_split(gid, body, fs, fid)[i]).id.api_index == i by {
        assert(i < 16);
    }
}

/// Total payload bytes across a frame list.
pub open spec fn frames_bytes(frames: Seq<TxFrameV>) -> int
    decreases frames.len(),
{
    if frames.len() == 0 {
        0
    } else {
        frames_bytes(frames.drop_last()) + frames.last().data.len()
    }
}

/// The frames of a split carry the whole body once, plus the three-byte
/// Start header: their payload bytes sum to `L + 3`.
pub proof fn lemma_split_total_bytes(gid: GrappleMessageId, body: Seq<u8>, fs: int, fid: u8)
    requires
        4 <= fs < body.len() <= 253,
    ensures
        frames_bytes(spec_split(gid, body, fs, fid)) == body.len() + 3,
{
    let nf = spec_n_frames(body.len() as int, fs);
    lemma_nf_props(body.len() as int, fs);
    lemma_split_prefix_bytes(gid, body, fs, fid, nf);
    assert(spec_split(gid, body, fs, fid).take(nf) =~= spec_split(gid, body, fs, fid));
    assert(full_slots(body, fs).take(nf) =~= full_slots(body, fs));
    lemma_full_slots_bytes(body, fs);
}

/// The first `k` frames of a split carry the first `k` chunks, plus the
/// header.
proof fn lemma_split_prefix_bytes(
    gid: GrappleMessageId,
    body: Seq<u8>,
    fs: int,
    fid: u8,
    k: int,
)
    requires
        4 <= fs < body.len() <= 253,
        1 <= k <= spec_n_frames(body.len() as int, fs),
    ensures
        frames_bytes(spec_split(gid, body, fs, fid).take(k)) == 3 + slots_bytes(
            full_slots(body, fs).take(k),
        ),
    decreases k,
{
    let sp = spec_split(gid, body, fs, fid);
    let full = full_slots(body, fs);
    lemma_nf_props(body.len() as int, fs);
    assert(sp.len() == spec_n_frames(body.len() as int, fs));
    if k == 1 {
        assert(sp.take(1).drop_last() =~= Seq::<TxFrameV>::empty());
        assert(full.take(1).drop_last() =~= Seq::<Option<Seq<u8>>>::empty());
        assert(frames_bytes(Seq::<TxFrameV>::empty()) == 0);
        assert(slots_bytes(Seq::<Option<Seq<u8>>>::empty()) == 0);
        lemma_chunk_bounds(body, fs, 0);
        assert(sp[0].data.len() == 3 + chunk_at(body, fs, 0).len());
    } else {
        lemma_split_prefix_bytes(gid, body, fs, fid, k - 1);
        assert(sp.take(k).drop_last() =~= sp.take(k - 1));
        assert(full.take(k).drop_last() =~= full.take(k - 1));
        lemma_chunk_bounds(body, fs, k - 1);
        assert(sp.take(k).last().data == chunk_at(body, fs, k - 1));
    }
}

} // verus!
