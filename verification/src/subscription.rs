//! Host-side decoding of a module's subscription table.
//!
//! The host receives the table a module serialized at setup time (see
//! [`crate::register`]) as untrusted bytes inside the guest's linear memory
//! and decodes it into tagged [`Register`] values.  Every length and offset
//! is validated against the buffer; an unknown wire id is a hard failure
//! because the table format is not forward-compatible.  Duplicate policy is
//! not re-checked here: the encoder validated it before producing bytes.

use vstd::prelude::*;

use crate::WireError;
use crate::mem::{be16_at, be32_at, be64_at, read_u16_be, read_u32_be, read_u64_be};
use crate::register;
use crate::register::{
    extra_total, lemma_entries_len, lemma_entries_mid, lemma_extra_total_bound,
    lemma_extra_total_split, lemma_extras_len, lemma_extras_mid, reg_extra_len, table_bytes,
};

verus! {

/// The audio-property bitflags a module subscribed to, as decoded host-side.
#[derive(Debug, Clone, Copy, PartialEq, Eq, Structural)]
pub struct AudioRegisterData(pub u8);

/// Bit meaning: the sink list changed.
pub const AUDIO_SINKS_CHANGED: u8 = 0b_0000_0001;

/// Bit meaning: the default sink changed.
pub const AUDIO_DEFAULT_SINK_CHANGED: u8 = 0b_0000_0010;

/// Bit meaning: the source list changed.
pub const AUDIO_SOURCES_CHANGED: u8 = 0b_0000_0100;

/// Bit meaning: the default source changed.
pub const AUDIO_DEFAULT_SOURCE_CHANGED: u8 = 0b_0000_1000;

/// Bit meaning: the card list changed.
pub const AUDIO_CARDS_CHANGED: u8 = 0b_0001_0000;

/// Bit meaning: the default sink's active profile changed.
pub const AUDIO_SINK_PROFILE_CHANGED: u8 = 0b_0010_0000;

/// Bit meaning: the default source's active profile changed.
pub const AUDIO_SOURCE_PROFILE_CHANGED: u8 = 0b_0100_0000;

impl AudioRegisterData {
    /// Whether every bit of `case` is present in this flag set's overlap,
    /// i.e. the two masks share at least one set bit.
    pub fn is_set(&self, case: AudioRegisterData) -> (r: bool)
        ensures
            r == ((self.0 & case.0) != 0),
    {
        self.0 & case.0 != 0
    }

    /// No subscriptions.
    pub fn none() -> (r: Self)
        ensures
            r.0 == 0,
    {
        Self(0)
    }

    /// Every audio-property subscription.
    pub fn all() -> (r: Self)
        ensures
            r.0 == 0x7f,
    {
        Self(0b0111_1111)
    }
}

/// One decoded subscription entry, host-side.
#[derive(Debug, Clone, Copy, PartialEq, Eq, Structural)]
pub enum Register {
    Interval { milliseconds: u64, offset: u32 },
    PulseAudio { pulseaudio: AudioRegisterData },
}

/// Byte offset of table entry `i`: 16 header bytes, then 16 bytes each.
pub open spec fn entry_off(i: int) -> int {
    16 + 16 * i
}

/// Decodes one 16-byte table entry at byte offset `eoff` of `m`; the
/// extra-data region begins at `table_end`.  `None` is a decode failure:
/// an unknown id, or timer payload reaching past the buffer.
pub open spec fn spec_entry_decode(m: Seq<u8>, table_end: int, eoff: int) -> Option<Register> {
    let id = be16_at(m, eoff);
    if id == 1 {
        Some(Register::PulseAudio {
            pulseaudio: AudioRegisterData((be32_at(m, eoff + 2) % 0x100) as u8),
        })
    } else if id == 3 {
        let x = table_end + be32_at(m, eoff + 6);
        if x + 16 <= m.len() {
            Some(Register::Interval {
                milliseconds: be64_at(m, x) as u64,
                offset: be32_at(m, x + 8) as u32,
            })
        } else {
            None
        }
    } else {
        None
    }
}

/// Decodes entries `i .. n`; fails as a whole if any single entry fails.
pub open spec fn spec_entries_decode(m: Seq<u8>, table_end: int, i: int, n: int) -> Option<
    Seq<Register>,
>
    decreases n - i,
{
    if i >= n {
        Some(Seq::empty())
    } else {
        match (spec_entry_decode(m, table_end, entry_off(i)), spec_entries_decode(
            m,
            table_end,
            i + 1,
            n,
        )) {
            (Some(h), Some(t)) => Some(seq![h] + t),
            _ => None,
        }
    }
}

/// Decodes a whole register table: header length check, then each entry.
/// The total-size and version header fields are not interpreted; the entry
/// count alone drives the table walk, exactly as the entries are trusted
/// only as far as the bounds checks carry them.
pub open spec fn spec_decode_table(m: Seq<u8>) -> Option<Seq<Register>> {
    if m.len() < 16 {
        None
    } else {
        let n = be16_at(m, 6);
        if 16 + 16 * n > m.len() {
            None
        } else {
            spec_entries_decode(m, 16 + 16 * n, 0, n)
        }
    }
}

/// The raw fields of one 16-byte table entry, before its id is
/// interpreted.
#[derive(Debug, Clone, Copy, PartialEq, Eq, Structural)]
pub struct RegisterEntryData {
    /// The wire id naming the register kind.
    pub id: u16,
    /// The 32-bit capability bitmask; its meaning depends on the id.
    pub registers: u32,
    /// Offset of this entry's payload from the start of the extra-data
    /// region; meaningful only for kinds that carry payload.
    pub extra_data_offset: u32,
}

impl Register {
    /// Reads the raw fields of the table entry at byte offset `eoff`.
    pub fn get_entry_data(data: &Vec<u8>, eoff: usize) -> (r: Result<RegisterEntryData, WireError>)
        ensures
            match r {
                Ok(e) => eoff + 10 <= data@.len() && e.id == be16_at(data@, eoff as int)
                    && e.registers == be32_at(data@, eoff + 2) && e.extra_data_offset == be32_at(
                    data@,
                    eoff + 6,
                ),
                Err(er) => er == WireError::OutOfBounds && eoff + 10 > data@.len(),
            },
    {
        if eoff > data.len() || 10 > data.len() - eoff {
            return Err(WireError::OutOfBounds);
        }
        let id = match read_u16_be(data, eoff) {
            Ok(v) => v,
            Err(_) => {
                assert(false);
                return Err(WireError::OutOfBounds);
            }
        };
        let registers = match read_u32_be(data, eoff + 2) {
            Ok(v) => v,
            Err(_) => {
                assert(false);
                return Err(WireError::OutOfBounds);
            }
        };
        let extra_data_offset = match read_u32_be(data, eoff + 6) {
            Ok(v) => v,
            Err(_) => {
                assert(false);
                return Err(WireError::OutOfBounds);
            }
        };
        Ok(RegisterEntryData { id, registers, extra_data_offset })
    }

    /// Decodes one table entry into its register, reading any payload from
    /// the extra-data region that starts at `extra_data_start`.  Succeeds
    /// exactly when the specification decoder does on this entry.
    pub fn from_entry_bytes(data: &Vec<u8>, extra_data_start: usize, eoff: usize) -> (r: Result<
        Register,
        WireError,
    >)
        requires
            eoff + 16 <= data@.len(),
            extra_data_start <= data@.len(),
        ensures
            r is Ok <==> spec_entry_decode(data@, extra_data_start as int, eoff as int) is Some,
            match r {
                Ok(reg) => spec_entry_decode(data@, extra_data_start as int, eoff as int) == Some(
                    reg,
                ),
                Err(WireError::UnknownRegisterId(id)) => id == be16_at(data@, eoff as int) && id
                    != 1 && id != 3,
                Err(WireError::OutOfBounds) => be16_at(data@, eoff as int) == 3
                    && extra_data_start + be32_at(data@, eoff + 6) + 16 > data@.len(),
                Err(_) => false,
            },
    {
        let entry = match Register::get_entry_data(data, eoff) {
            Ok(e) => e,
            Err(_) => {
                assert(false);
                return Err(WireError::OutOfBounds);
            }
        };
        if entry.id == 1 {
            let bits = (entry.registers % 0x100) as u8;
            Ok(Register::PulseAudio { pulseaudio: AudioRegisterData(bits) })
        } else if entry.id == 3 {
            let room: u64 = (data.len() - extra_data_start) as u64;
            if entry.extra_data_offset as u64 + 16 > room {
                return Err(WireError::OutOfBounds);
            }
            let x: usize = extra_data_start + entry.extra_data_offset as usize;
            let millis = match read_u64_be(data, x) {
                Ok(v) => v,
                Err(_) => {
                    assert(false);
                    return Err(WireError::OutOfBounds);
                }
            };
            let offset = match read_u32_be(data, x + 8) {
                Ok(v) => v,
                Err(_) => {
                    assert(false);
                    return Err(WireError::OutOfBounds);
                }
            };
            Ok(Register::Interval { milliseconds: millis, offset })
        } else {
            Err(WireError::UnknownRegisterId(entry.id))
        }
    }
}

/// Deserializing wire structures out of a guest byte buffer.
pub trait Deserialize: Sized {
    fn deserialize(data: &Vec<u8>) -> Result<Self, WireError>;
}

impl Deserialize for Vec<Register> {
    fn deserialize(data: &Vec<u8>) -> (r: Result<Self, WireError>)
        ensures
            r is Ok <==> spec_decode_table(data@) is Some,
            r matches Ok(v) ==> spec_decode_table(data@) == Some(v@),
    {
        deserialize_registers(data)
    }
}

/// Decodes the subscription table in `data` into its entries, in table
/// order.  Succeeds exactly when the specification decoder does, and then
/// returns exactly what it describes.
#[verifier::rlimit(100)]
pub fn deserialize_registers(data: &Vec<u8>) -> (r: Result<Vec<Register>, WireError>)
    ensures
        r is Ok <==> spec_decode_table(data@) is Some,
        match r {
            Ok(v) => spec_decode_table(data@) == Some(v@),
            Err(WireError::TruncatedHeader) => data@.len() < 16,
            Err(WireError::TruncatedEntries) => data@.len() >= 16 && 16 + 16 * be16_at(data@, 6)
                > data@.len(),
            Err(WireError::UnknownRegisterId(id)) => exists|i: int|
                0 <= i < be16_at(data@, 6) && #[trigger] be16_at(data@, entry_off(i)) == id
                    && id != 1 && id != 3,
            Err(WireError::OutOfBounds) => exists|i: int|
                0 <= i < be16_at(data@, 6) && #[trigger] be16_at(data@, entry_off(i)) == 3
                    && 16 + 16 * be16_at(data@, 6) + be32_at(data@, entry_off(i) + 6) + 16
                        > data@.len(),
            Err(_) => false,
        },
{
    let ghost m = data@;
    if data.len() < 16 {
        return Err(WireError::TruncatedHeader);
    }
    let n_u16 = match read_u16_be(data, 6) {
        Ok(v) => v,
        Err(_) => {
            assert(false);
            return Err(WireError::OutOfBounds);
        }
    };
    let n = n_u16 as usize;
    let table_end: usize = 16 + 16 * n;
    if table_end > data.len() {
        return Err(WireError::TruncatedEntries);
    }

    let mut out: Vec<Register> = Vec::new();
    let mut i: usize = 0;
    while i < n
        invariant
            i <= n,
            m == data@,
            n == be16_at(m, 6),
            table_end == 16 + 16 * n,
            table_end <= m.len(),
            out@.len() == i,
            forall|j: int|
                0 <= j < i ==> #[trigger] spec_entry_decode(m, table_end as int, entry_off(j))
                    == Some(out@[j]),
        decreases n - i,
    {
        let eoff: usize = 16 + 16 * i;
        match Register::from_entry_bytes(data, table_end, eoff) {
            Ok(reg) => {
                out.push(reg);
            }
            Err(e) => {
                proof {
                    assert(spec_entry_decode(m, table_end as int, entry_off(i as int)) is None);
                    lemma_entries_decode_has_none(m, table_end as int, 0, n as int, i as int);
                }
                return Err(e);
            }
        }
        i = i + 1;
    }

    proof {
        lemma_entries_decode_all_some(m, table_end as int, 0, n as int, out@);
    }
    Ok(out)
}

/// If every entry in `i .. n` decodes to the matching element of `s`, the
/// whole range decodes to `s`.
#[verifier::rlimit(100)]
pub proof fn lemma_entries_decode_all_some(
    m: Seq<u8>,
    table_end: int,
    i: int,
    n: int,
    s: Seq<Register>,
)
    requires
        0 <= i <= n,
        s.len() == n - i,
        forall|j: int|
            i <= j < n ==> #[trigger] spec_entry_decode(m, table_end, entry_off(j)) == Some(
                s[j - i],
            ),
    ensures
        spec_entries_decode(m, table_end, i, n) == Some(s),
    decreases n - i,
{
    if i >= n {
        assert(s =~= Seq::<Register>::empty());
    } else {
        lemma_entries_decode_all_some(m, table_end, i + 1, n, s.skip(1));
        assert(spec_entry_decode(m, table_end, entry_off(i)) == Some(s[0]));
        assert(seq![s[0]] + s.skip(1) =~= s);
    }
}

/// If one entry in `i .. n` fails to decode, the whole range fails.
pub proof fn lemma_entries_decode_has_none(m: Seq<u8>, table_end: int, i: int, n: int, j: int)
    requires
        0 <= i <= j < n,
        spec_entry_decode(m, table_end, entry_off(j)) is None,
    ensures
        spec_entries_decode(m, table_end, i, n) is None,
    decreases n - i,
{
    if i < j {
        lemma_entries_decode_has_none(m, table_end, i + 1, n, j);
    }
}

/// The host-side value of one guest-declared register.
pub open spec fn host_of(r: register::Register) -> Register {
    match r {
        register::Register::Interval(iv) => Register::Interval {
            milliseconds: iv.milliseconds,
            offset: iv.offset,
        },
        register::Register::PulseAudio(p) => Register::PulseAudio {
            pulseaudio: AudioRegisterData(p.0),
        },
    }
}

/// Entry `i` of an encoded table decodes back to register `i`.
#[verifier::rlimit(100)]
proof fn lemma_entry_round_trip(rs: Seq<register::Register>, i: int)
    requires
        rs.len() <= 0xFFFF,
        0 <= i < rs.len(),
    ensures
        spec_entry_decode(table_bytes(rs), 16 + 16 * rs.len() as int, entry_off(i))
            == Some(host_of(rs[i])),
{
    let m = table_bytes(rs);
    let n = rs.len() as int;
    let te = 16 + 16 * n;
    let eoff = entry_off(i);
    let o = extra_total(rs.take(i));
    lemma_entries_len(rs, 0);
    lemma_extras_len(rs);
    lemma_extra_total_bound(rs);
    lemma_extra_total_bound(rs.take(i));
    assert(m.len() == 16 + 16 * n + extra_total(rs));

    lemma_entries_mid(rs, i, 0);
    assert(m.subrange(eoff, eoff + 16) =~= register::reg_entry_bytes(rs[i], o));
    assert(m.subrange(eoff, eoff + 16)[0] == m[eoff + 0]);
    assert(m.subrange(eoff, eoff + 16)[1] == m[eoff + 1]);
    assert(m.subrange(eoff, eoff + 16)[2] == m[eoff + 2]);
    assert(m.subrange(eoff, eoff + 16)[3] == m[eoff + 3]);
    assert(m.subrange(eoff, eoff + 16)[4] == m[eoff + 4]);
    assert(m.subrange(eoff, eoff + 16)[5] == m[eoff + 5]);
    assert(m.subrange(eoff, eoff + 16)[6] == m[eoff + 6]);
    assert(m.subrange(eoff, eoff + 16)[7] == m[eoff + 7]);
    assert(m.subrange(eoff, eoff + 16)[8] == m[eoff + 8]);
    assert(m.subrange(eoff, eoff + 16)[9] == m[eoff + 9]);
    assert(m.subrange(eoff, eoff + 16)[10] == m[eoff + 10]);
    assert(m.subrange(eoff, eoff + 16)[11] == m[eoff + 11]);
    assert(m.subrange(eoff, eoff + 16)[12] == m[eoff + 12]);
    assert(m.subrange(eoff, eoff + 16)[13] == m[eoff + 13]);
    assert(m.subrange(eoff, eoff + 16)[14] == m[eoff + 14]);
    assert(m.subrange(eoff, eoff + 16)[15] == m[eoff + 15]);
    assert(m.subrange(eoff, eoff + 2) =~= crate::mem::be16_bytes(register::reg_id(rs[i]) as int));
    crate::mem::lemma_be16_roundtrip(m, eoff, register::reg_id(rs[i]) as int);
    assert(be16_at(m, eoff) == register::reg_id(rs[i]));

    match rs[i] {
        register::Register::PulseAudio(p) => {
            assert(m.subrange(eoff + 2, eoff + 6)
                =~= crate::mem::be32_bytes(register::reg_mask(rs[i]) as int));
            crate::mem::lemma_be32_roundtrip(m, eoff + 2, register::reg_mask(rs[i]) as int);
            assert(be32_at(m, eoff + 2) == p.0 as int);
            assert((be32_at(m, eoff + 2) % 0x100) as u8 == p.0);
        }
        register::Register::Interval(iv) => {
            assert(m.subrange(eoff + 6, eoff + 10) =~= crate::mem::be32_bytes(o));
            crate::mem::lemma_be32_roundtrip(m, eoff + 6, o);
            assert(be32_at(m, eoff + 6) == o);
            let x = te + o;
            lemma_extra_total_split(rs, i);
            assert(rs.skip(i)[0] == rs[i]);
            assert(extra_total(rs.skip(i))
                == reg_extra_len(rs[i]) + extra_total(rs.skip(i).skip(1)));
            lemma_extra_total_bound(rs.skip(i).skip(1));
            assert(o + 16 <= extra_total(rs));
            assert(x + 16 <= m.len());
            lemma_extras_mid(rs, i);
            assert(m.subrange(x, x + 16) =~= register::reg_extra_bytes(rs[i]));
            assert(m.subrange(x, x + 16)[0] == m[x + 0]);
            assert(m.subrange(x, x + 16)[1] == m[x + 1]);
            assert(m.subrange(x, x + 16)[2] == m[x + 2]);
            assert(m.subrange(x, x + 16)[3] == m[x + 3]);
            assert(m.subrange(x, x + 16)[4] == m[x + 4]);
            assert(m.subrange(x, x + 16)[5] == m[x + 5]);
            assert(m.subrange(x, x + 16)[6] == m[x + 6]);
            assert(m.subrange(x, x + 16)[7] == m[x + 7]);
            assert(m.subrange(x, x + 16)[8] == m[x + 8]);
            assert(m.subrange(x, x + 16)[9] == m[x + 9]);
            assert(m.subrange(x, x + 16)[10] == m[x + 10]);
            assert(m.subrange(x, x + 16)[11] == m[x + 11]);
            assert(m.subrange(x, x + 16)[12] == m[x + 12]);
            assert(m.subrange(x, x + 16)[13] == m[x + 13]);
            assert(m.subrange(x, x + 16)[14] == m[x + 14]);
            assert(m.subrange(x, x + 16)[15] == m[x + 15]);
            assert(m.subrange(x, x + 8) =~= crate::mem::be64_bytes(iv.milliseconds as int));
            crate::mem::lemma_be64_roundtrip(m, x, iv.milliseconds as int);
            assert(m.subrange(x + 8, x + 12) =~= crate::mem::be32_bytes(iv.offset as int));
            crate::mem::lemma_be32_roundtrip(m, x + 8, iv.offset as int);
            assert(be64_at(m, x) == iv.milliseconds as int);
            assert(be32_at(m, x + 8) == iv.offset as int);
        }
    }
}

/// Round trip: a register table that serializes is decoded back to the same
/// ordered sequence of tagged entries, each carried over to its host-side
/// value.  Holds for tables of any size the count field can carry, with any
/// mix of tags.
#[verifier::rlimit(100)]
pub proof fn lemma_register_round_trip(rs: Seq<register::Register>)
    requires
        rs.len() <= 0xFFFF,
    ensures
        spec_decode_table(table_bytes(rs)) == Some(rs.map_values(|r| host_of(r))),
{
    let m = table_bytes(rs);
    let n = rs.len() as int;
    let te = 16 + 16 * n;
    lemma_entries_len(rs, 0);
    lemma_extras_len(rs);
    lemma_extra_total_bound(rs);
    assert(m.len() == 16 + 16 * n + extra_total(rs));
    assert(m.subrange(6, 8) =~= crate::mem::be16_bytes(n));
    crate::mem::lemma_be16_roundtrip(m, 6, n);
    assert(be16_at(m, 6) == n);
    assert(16 + 16 * n <= m.len());
    let s = rs.map_values(|r| host_of(r));
    assert forall|j: int| 0 <= j < n implies #[trigger] spec_entry_decode(m, te, entry_off(j))
        == Some(s[j]) by {
        lemma_entry_round_trip(rs, j);
    }
    lemma_entries_decode_all_some(m, te, 0, n, s);
}

} // verus!
