//! Host-side decoding of a module's setup output.
//!
//! The setup entry point returns one offset into guest memory; at it lies
//! a fixed record naming where the module's name bytes, surface descriptor
//! table, and serialized subscription table live.  Everything is untrusted
//! and bounds-checked; a module whose setup output does not decode is
//! excluded, with the failure reported — never a crash.

use vstd::prelude::*;

use crate::WireError;
use crate::mem::{be32_at, le32_at, read_bytes, read_u32_be, read_u32_le};
use crate::subscription::{Register, deserialize_registers, spec_decode_table};
use crate::surface::{LayerSurfaceRaw, read_layer_surface_raw, spec_surface_at};

verus! {

/// The fixed record a setup call returns: where the module's name bytes,
/// surface table, and serialized subscription table live in guest memory.
#[derive(Debug, Clone, Copy, PartialEq, Eq, Structural)]
pub struct SetupFuncData {
    pub module_name_ptr: u32,
    pub module_name_len: u32,
    pub layer_surfaces_ptr: u32,
    pub layer_surfaces_len: u32,
    pub registers_bytes_ptr: u32,
}

/// The setup record read from `m` at byte offset `off`.
pub open spec fn spec_sfd_at(m: Seq<u8>, off: int) -> SetupFuncData {
    SetupFuncData {
        module_name_ptr: le32_at(m, off) as u32,
        module_name_len: le32_at(m, off + 4) as u32,
        layer_surfaces_ptr: le32_at(m, off + 8) as u32,
        layer_surfaces_len: le32_at(m, off + 12) as u32,
        registers_bytes_ptr: le32_at(m, off + 16) as u32,
    }
}

/// Reads the setup record at `offset`.
#[verifier::rlimit(100)]
pub fn read_setup_func_data(memory: &Vec<u8>, offset: u32) -> (r: Result<
    SetupFuncData,
    WireError,
>)
    ensures
        match r {
            Ok(s) => offset + 20 <= memory@.len() && s == spec_sfd_at(memory@, offset as int),
            Err(e) => e == WireError::OutOfBounds && offset + 20 > memory@.len(),
        },
{
    if offset as u64 + 20 > memory.len() as u64 {
        return Err(WireError::OutOfBounds);
    }
    let off = offset as usize;
    let module_name_ptr = match read_u32_le(memory, off) {
        Ok(v) => v,
        Err(_) => {
            assert(false);
            return Err(WireError::OutOfBounds);
        }
    };
    let module_name_len = match read_u32_le(memory, off + 4) {
        Ok(v) => v,
        Err(_) => {
            assert(false);
            return Err(WireError::OutOfBounds);
        }
    };
    let layer_surfaces_ptr = match read_u32_le(memory, off + 8) {
        Ok(v) => v,
        Err(_) => {
            assert(false);
            return Err(WireError::OutOfBounds);
        }
    };
    let layer_surfaces_len = match read_u32_le(memory, off + 12) {
        Ok(v) => v,
        Err(_) => {
            assert(false);
            return Err(WireError::OutOfBounds);
        }
    };
    let registers_bytes_ptr = match read_u32_le(memory, off + 16) {
        Ok(v) => v,
        Err(_) => {
            assert(false);
            return Err(WireError::OutOfBounds);
        }
    };
    Ok(SetupFuncData {
        module_name_ptr,
        module_name_len,
        layer_surfaces_ptr,
        layer_surfaces_len,
        registers_bytes_ptr,
    })
}

/// Everything a module's setup call hands the host, decoded: the name
/// bytes as the module wrote them (text interpretation is the shell's
/// concern), the raw surface descriptors in declaration order, and the
/// decoded subscription table.
#[derive(Debug)]
pub struct SetupOutput {
    pub module_name: Vec<u8>,
    pub layer_surfaces: Vec<LayerSurfaceRaw>,
    pub registers: Vec<Register>,
}

/// A setup record at `off` leads to a fully decodable setup output:
/// every named range lies inside the buffer and the subscription table
/// decodes.
pub open spec fn spec_setup_ok(m: Seq<u8>, off: int) -> bool {
    &&& off + 20 <= m.len()
    &&& {
        let s = spec_sfd_at(m, off);
        &&& s.module_name_ptr + s.module_name_len <= m.len()
        &&& s.layer_surfaces_ptr + 32 * s.layer_surfaces_len <= m.len()
        &&& s.registers_bytes_ptr + 4 <= m.len()
        &&& s.registers_bytes_ptr + be32_at(m, s.registers_bytes_ptr as int) <= m.len()
        &&& spec_decode_table(
            m.subrange(
                s.registers_bytes_ptr as int,
                s.registers_bytes_ptr + be32_at(m, s.registers_bytes_ptr as int),
            ),
        ) is Some
    }
}

/// Decodes a whole setup output from the record at `offset`.  Succeeds
/// exactly when every piece decodes; then the name bytes, surface records
/// and subscription entries are exactly what the record names.
#[verifier::rlimit(100)]
pub fn decode_setup_output(memory: &Vec<u8>, offset: u32) -> (r: Result<SetupOutput, WireError>)
    ensures
        r is Ok <==> spec_setup_ok(memory@, offset as int),
        match r {
            Ok(out) => {
                let s = spec_sfd_at(memory@, offset as int);
                &&& out.module_name@ == memory@.subrange(
                    s.module_name_ptr as int,
                    s.module_name_ptr + s.module_name_len,
                )
                &&& out.layer_surfaces@.len() == s.layer_surfaces_len
                &&& forall|i: int|
                    0 <= i < s.layer_surfaces_len ==> #[trigger] out.layer_surfaces@[i]
                        == spec_surface_at(memory@, s.layer_surfaces_ptr + 32 * i)
                &&& Some(out.registers@) == spec_decode_table(
                    memory@.subrange(
                        s.registers_bytes_ptr as int,
                        s.registers_bytes_ptr + be32_at(memory@, s.registers_bytes_ptr as int),
                    ),
                )
            },
            Err(_) => true,
        },
{
    let s = match read_setup_func_data(memory, offset) {
        Ok(s) => s,
        Err(e) => {
            return Err(e);
        }
    };
    if s.module_name_ptr as u64 + s.module_name_len as u64 > memory.len() as u64 {
        return Err(WireError::OutOfBounds);
    }
    let module_name = match read_bytes(
        memory,
        s.module_name_ptr as usize,
        s.module_name_len as usize,
    ) {
        Ok(b) => b,
        Err(_) => {
            assert(false);
            return Err(WireError::OutOfBounds);
        }
    };

    if s.layer_surfaces_ptr as u64 + 32 * s.layer_surfaces_len as u64 > memory.len() as u64 {
        return Err(WireError::OutOfBounds);
    }
    let mut layer_surfaces: Vec<LayerSurfaceRaw> = Vec::new();
    let n = s.layer_surfaces_len;
    let mut i: u32 = 0;
    while i < n
        invariant
            i <= n,
            s.layer_surfaces_ptr + 32 * n <= memory@.len(),
            layer_surfaces@.len() == i,
            forall|j: int|
                0 <= j < i ==> #[trigger] layer_surfaces@[j] == spec_surface_at(
                    memory@,
                    s.layer_surfaces_ptr + 32 * j,
                ),
        decreases n - i,
    {
        let raw = match read_layer_surface_raw(memory, s.layer_surfaces_ptr, i) {
            Ok(raw) => raw,
            Err(_) => {
                assert(false);
                return Err(WireError::OutOfBounds);
            }
        };
        layer_surfaces.push(raw);
        i = i + 1;
    }

    if s.registers_bytes_ptr as u64 + 4 > memory.len() as u64 {
        return Err(WireError::OutOfBounds);
    }
    let table_size = match read_u32_be(memory, s.registers_bytes_ptr as usize) {
        Ok(v) => v,
        Err(_) => {
            assert(false);
            return Err(WireError::OutOfBounds);
        }
    };
    if s.registers_bytes_ptr as u64 + table_size as u64 > memory.len() as u64 {
        return Err(WireError::OutOfBounds);
    }
    let blob = match read_bytes(memory, s.registers_bytes_ptr as usize, table_size as usize) {
        Ok(b) => b,
        Err(_) => {
            assert(false);
            return Err(WireError::OutOfBounds);
        }
    };
    let registers = match deserialize_registers(&blob) {
        Ok(v) => v,
        Err(e) => {
            return Err(e);
        }
    };
    Ok(SetupOutput { module_name, layer_surfaces, registers })
}

} // verus!
