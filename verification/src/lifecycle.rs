//! Module lifecycle: what the host keeps per resident module.
//!
//! A module is discovered, instantiated and driven through its entry
//! points by the sandbox runtime at the edge; what survives setup is this
//! record: the module's stable id, its self-declared name, its decoded
//! subscription table, and the surface ids it actually used.  A module
//! whose setup output fails to decode is never admitted; after admission,
//! per-render and per-callback failures are skipped, never fatal.

use vstd::prelude::*;

use crate::lease::WasmId;
use crate::setup::SetupOutput;
use crate::subscription::Register;
use crate::surface::{collect_used_surface_ids, leased_ids_of};

verus! {

/// One resident module, as the dispatch loop owns it.
#[derive(Debug)]
pub struct ModuleRecord {
    /// Stable id assigned at discovery.
    pub id: u32,
    /// The name the module declared at setup, as raw bytes.
    pub module_name: Vec<u8>,
    /// The decoded subscription table; immutable after setup.
    pub registers: Vec<Register>,
    /// The surface ids of declared surfaces that were really leased to
    /// this module.
    pub used_surface_ids: Vec<u32>,
}

/// Admits a module from its decoded setup output: keeps its name and
/// subscription table, and records the used surfaces — exactly the ids of
/// its declared surfaces that the lease table really leased to it, in
/// declaration order.
pub fn admit_module(id: u32, setup: SetupOutput, leases: &WasmId) -> (r: ModuleRecord)
    ensures
        r.id == id,
        r.module_name == setup.module_name,
        r.registers == setup.registers,
        r.used_surface_ids@ == leased_ids_of(setup.layer_surfaces@, leases.spec_leased()),
{
    let used_surface_ids = collect_used_surface_ids(&setup.layer_surfaces, leases);
    ModuleRecord { id, module_name: setup.module_name, registers: setup.registers, used_surface_ids }
}

} // verus!
