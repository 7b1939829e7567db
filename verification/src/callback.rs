//! Per-render callback tables and their dispatch.
//!
//! A callback is known to the host only as a small integer scoped to one
//! render's element tree; 0 means "none".  The values behind the integers
//! stay guest-side, in a per-surface table indexed 1..N — never a function
//! pointer crossing the boundary.  `run_callback` resolves an id and packs
//! the resulting `(message id, payload)` pair into one `u64` for the wire;
//! any miss returns the `(0, 0)` sentinel and nothing else happens.

use vstd::prelude::*;

use std::collections::HashMap;

use crate::arena::SliderNumberType;

verus! {

broadcast use vstd::std_specs::hash::group_hash_axioms;

/// One registered callback: what message it raises, and for sliders, which
/// numeric representation its raw 64-bit input carries.
#[derive(Debug, Clone, Copy, PartialEq, Eq, Structural)]
pub enum CallbackType {
    Button { message_id: u32 },
    Slider { ty: SliderNumberType, message_id: u32 },
}

/// The packed wire form of a callback result: message id in the high half,
/// result payload in the low half.
pub open spec fn spec_pack_result(message_id: u32, payload: u32) -> u64 {
    (message_id * 0x1_0000_0000 + payload) as u64
}

/// Packs a `(message id, payload)` pair into the `u64` the callback ABI
/// returns.
pub fn pack_callback_result(message_id: u32, payload: u32) -> (r: u64)
    ensures
        r == spec_pack_result(message_id, payload),
{
    (message_id as u64) * 0x1_0000_0000 + (payload as u64)
}

/// Splits a packed callback result back into `(message id, payload)`.
pub fn split_callback_result(packed: u64) -> (r: (u32, u32))
    ensures
        r.0 == packed / 0x1_0000_0000,
        r.1 == packed % 0x1_0000_0000,
{
    ((packed / 0x1_0000_0000) as u32, (packed % 0x1_0000_0000) as u32)
}

/// Packing then splitting gives the pair back; splitting then packing
/// gives the word back.
pub proof fn lemma_pack_split_roundtrip(message_id: u32, payload: u32, packed: u64)
    ensures
        spec_pack_result(message_id, payload) / 0x1_0000_0000 == message_id,
        spec_pack_result(message_id, payload) % 0x1_0000_0000 == payload,
        spec_pack_result((packed / 0x1_0000_0000) as u32, (packed % 0x1_0000_0000) as u32)
            == packed,
{
}

/// What dispatching a callback returns: the sentinel 0 for id 0, an
/// unknown surface, or an id past the table's end; otherwise the packed
/// result of the callback at 1-based index `callback_id`.  A button raises
/// its message with payload 0; a slider raises its message and hands the
/// low word of the raw input back as the payload.
pub open spec fn spec_run_callback(
    tables: Map<u32, Vec<CallbackType>>,
    surface_id: u32,
    callback_id: u32,
    data: u64,
) -> u64 {
    if callback_id == 0 {
        0
    } else if !tables.contains_key(surface_id) {
        0
    } else if callback_id > tables[surface_id]@.len() {
        0
    } else {
        match tables[surface_id]@[callback_id - 1] {
            CallbackType::Button { message_id } => spec_pack_result(message_id, 0),
            CallbackType::Slider { ty, message_id } => spec_pack_result(
                message_id,
                (data % 0x1_0000_0000) as u32,
            ),
        }
    }
}

/// The callback tables of one module, one table per surface, each rebuilt
/// on that surface's render.
#[derive(Debug)]
pub struct CallbackTable {
    tables: HashMap<u32, Vec<CallbackType>>,
}

impl CallbackTable {
    /// The per-surface tables.
    pub closed spec fn spec_tables(self) -> Map<u32, Vec<CallbackType>> {
        self.tables@
    }

    pub fn new() -> (r: CallbackTable)
        ensures
            r.spec_tables() == Map::<u32, Vec<CallbackType>>::empty(),
    {
        CallbackTable { tables: HashMap::new() }
    }

    /// Replaces surface `surface_id`'s table with the callbacks registered
    /// during its latest render, in registration order: the callback
    /// registered `k`-th answers to id `k + 1`.
    pub fn set_callbacks(&mut self, surface_id: u32, callbacks: Vec<CallbackType>)
        ensures
            final(self).spec_tables() == old(self).spec_tables().insert(surface_id, callbacks),
    {
        self.tables.insert(surface_id, callbacks);
    }

    /// Dispatches callback `callback_id` of surface `surface_id` with the
    /// raw input `data`.  Id 0, an unknown surface, or an id beyond the
    /// table's end return the `(0, 0)` sentinel and have no effect of any
    /// kind; a hit returns the packed `(message id, payload)` pair.
    pub fn run_callback(&self, surface_id: u32, callback_id: u32, data: u64) -> (r: u64)
        ensures
            r == spec_run_callback(self.spec_tables(), surface_id, callback_id, data),
            callback_id == 0 ==> r == 0,
            !self.spec_tables().contains_key(surface_id) ==> r == 0,
            self.spec_tables().contains_key(surface_id)
                && callback_id > self.spec_tables()[surface_id]@.len() ==> r == 0,
    {
        if callback_id == 0 {
            return 0;
        }
        let callbacks = match self.tables.get(&surface_id) {
            Some(cbs) => cbs,
            None => {
                return 0;
            }
        };
        if callback_id as usize > callbacks.len() {
            return 0;
        }
        let index = callback_id as usize - 1;
        match callbacks[index] {
            CallbackType::Button { message_id } => pack_callback_result(message_id, 0),
            CallbackType::Slider { ty: _, message_id } => pack_callback_result(
                message_id,
                (data % 0x1_0000_0000) as u32,
            ),
        }
    }
}

} // verus!
