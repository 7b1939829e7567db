//! Guest-side subscription registers and their wire encoding.
//!
//! At setup time a module declares which external events it wants to be
//! woken for: periodic timer interrupts and audio-property changes.  The
//! declarations are collected in a [`Registers`] value and serialized into a
//! flat binary table that the host decodes (see [`crate::subscription`]).
//!
//! Table layout, all integers big-endian:
//! a 16-byte header (total size `u32`, format version `u16`, entry count
//! `u16`, padding), then one 16-byte entry per register (id `u16`, capability
//! bitmask `u32`, extra-data offset `u32`, padding), then the extra-data
//! region.  Only registers that carry payload contribute extra data; their
//! entry stores the payload's offset from the start of the region.

use vstd::prelude::*;

use crate::WireError;
use crate::mem::{be16_bytes, be32_bytes, be64_bytes, push_u16_be, push_u32_be, push_u64_be};

verus! {

/// A periodic timer subscription: the host interrupts the module every
/// `milliseconds`, shifted forward by `offset` milliseconds.
#[derive(Debug, Clone, Copy, PartialEq, Eq, Structural)]
pub struct Interval {
    pub milliseconds: u64,
    pub offset: u32,
}

impl Interval {
    /// Total interval length in milliseconds.
    pub open spec fn spec_millis(self) -> u64 {
        self.milliseconds
    }

    /// Phase offset in milliseconds.
    pub open spec fn spec_offset(self) -> u32 {
        self.offset
    }

    pub fn from_millis(millis: u64) -> (r: Self)
        ensures
            r.spec_millis() == millis,
            r.spec_offset() == 0,
    {
        Self { milliseconds: millis, offset: 0 }
    }

    pub fn from_seconds(secs: u64) -> (r: Self)
        requires
            secs * 1000 <= u64::MAX,
        ensures
            r.spec_millis() == secs * 1000,
            r.spec_offset() == 0,
    {
        Self { milliseconds: secs * 1000, offset: 0 }
    }

    pub fn from_minutes(mins: u64) -> (r: Self)
        requires
            mins * 1000 * 60 <= u64::MAX,
        ensures
            r.spec_millis() == mins * 1000 * 60,
            r.spec_offset() == 0,
    {
        Self { milliseconds: mins * 1000 * 60, offset: 0 }
    }

    pub fn from_hours(hours: u64) -> (r: Self)
        requires
            hours * 1000 * 60 * 60 <= u64::MAX,
        ensures
            r.spec_millis() == hours * 1000 * 60 * 60,
            r.spec_offset() == 0,
    {
        Self { milliseconds: hours * 1000 * 60 * 60, offset: 0 }
    }

    pub fn from_days(days: u64) -> (r: Self)
        requires
            days * 1000 * 60 * 60 * 24 <= u64::MAX,
        ensures
            r.spec_millis() == days * 1000 * 60 * 60 * 24,
            r.spec_offset() == 0,
    {
        Self { milliseconds: days * 1000 * 60 * 60 * 24, offset: 0 }
    }

    pub fn add_millis(self, millis: u64) -> (r: Self)
        requires
            self.spec_millis() + millis <= u64::MAX,
        ensures
            r.spec_millis() == self.spec_millis() + millis,
            r.spec_offset() == self.spec_offset(),
    {
        Self { milliseconds: self.milliseconds + millis, offset: self.offset }
    }

    pub fn add_seconds(self, secs: u64) -> (r: Self)
        requires
            secs * 1000 <= u64::MAX,
            self.spec_millis() + secs * 1000 <= u64::MAX,
        ensures
            r.spec_millis() == self.spec_millis() + secs * 1000,
            r.spec_offset() == self.spec_offset(),
    {
        Self { milliseconds: self.milliseconds + secs * 1000, offset: self.offset }
    }

    pub fn add_minutes(self, mins: u64) -> (r: Self)
        requires
            mins * 1000 * 60 <= u64::MAX,
            self.spec_millis() + mins * 1000 * 60 <= u64::MAX,
        ensures
            r.spec_millis() == self.spec_millis() + mins * 1000 * 60,
            r.spec_offset() == self.spec_offset(),
    {
        Self { milliseconds: self.milliseconds + mins * 1000 * 60, offset: self.offset }
    }

    pub fn add_hours(self, hours: u64) -> (r: Self)
        requires
            hours * 1000 * 60 * 60 <= u64::MAX,
            self.spec_millis() + hours * 1000 * 60 * 60 <= u64::MAX,
        ensures
            r.spec_millis() == self.spec_millis() + hours * 1000 * 60 * 60,
            r.spec_offset() == self.spec_offset(),
    {
        Self { milliseconds: self.milliseconds + hours * 1000 * 60 * 60, offset: self.offset }
    }

    pub fn add_days(self, days: u64) -> (r: Self)
        requires
            days * 1000 * 60 * 60 * 24 <= u64::MAX,
            self.spec_millis() + days * 1000 * 60 * 60 * 24 <= u64::MAX,
        ensures
            r.spec_millis() == self.spec_millis() + days * 1000 * 60 * 60 * 24,
            r.spec_offset() == self.spec_offset(),
    {
        Self { milliseconds: self.milliseconds + days * 1000 * 60 * 60 * 24, offset: self.offset }
    }

    /// Shifts the interval forward by `offset` milliseconds, so two equal
    /// intervals can interrupt at different phases.
    pub fn offset(self, offset: u32) -> (r: Self)
        ensures
            r.spec_millis() == self.spec_millis(),
            r.spec_offset() == offset,
    {
        Self { milliseconds: self.milliseconds, offset }
    }

    /// The wire id of the timer register.
    pub fn const_id() -> (r: u16)
        ensures
            r == 3,
    {
        0x00_03
    }

    /// Timer registers may appear more than once in one table.
    pub fn const_allow_duplicates() -> (r: bool)
        ensures
            r,
    {
        true
    }
}

/// An audio-property subscription: a set of bitflags naming which mixer
/// changes (sink/source lists, defaults, cards, profiles) the module wants.
#[derive(Debug, Clone, Copy, PartialEq, Eq, Structural)]
pub struct PulseAudio(pub u8);

impl PulseAudio {
    /// Subscribes to nothing.
    pub fn none() -> (r: Self)
        ensures
            r.0 == 0,
    {
        Self(0)
    }

    /// Subscribes to every audio property change.
    pub fn all() -> (r: Self)
        ensures
            r.0 == 0x7f,
    {
        Self(0b0111_1111)
    }

    /// The wire id of the audio-property register.
    pub fn const_id() -> (r: u16)
        ensures
            r == 1,
    {
        0x00_01
    }

    /// At most one audio-property register may appear in one table.
    pub fn const_allow_duplicates() -> (r: bool)
        ensures
            !r,
    {
        false
    }
}

/// One declared register, tagged by kind.
#[derive(Debug, Clone, Copy, PartialEq, Eq, Structural)]
pub enum Register {
    Interval(Interval),
    PulseAudio(PulseAudio),
}

/// Turns a concrete register kind into the tagged [`Register`] that a
/// [`Registers`] table holds.
pub trait IntoRegister {
    fn into_register(self) -> Register;
}

impl IntoRegister for Interval {
    fn into_register(self) -> (r: Register)
        ensures
            r == Register::Interval(self),
    {
        Register::Interval(self)
    }
}

impl IntoRegister for PulseAudio {
    fn into_register(self) -> (r: Register)
        ensures
            r == Register::PulseAudio(self),
    {
        Register::PulseAudio(self)
    }
}

/// The wire id of a register.
pub open spec fn reg_id(r: Register) -> u16 {
    match r {
        Register::Interval(_) => 3,
        Register::PulseAudio(_) => 1,
    }
}

/// Whether the tag with wire id `id` may appear more than once per table.
pub open spec fn id_allows_duplicates(id: u16) -> bool {
    id == 3
}

/// The 32-bit capability bitmask written in a register's table entry.
pub open spec fn reg_mask(r: Register) -> u32 {
    match r {
        Register::Interval(_) => 0,
        Register::PulseAudio(p) => p.0 as u32,
    }
}

/// How many extra-data bytes a register contributes.
pub open spec fn reg_extra_len(r: Register) -> int {
    match r {
        Register::Interval(_) => 16,
        Register::PulseAudio(_) => 0,
    }
}

/// The extra-data payload of a register: a timer stores its interval and
/// phase offset as big-endian integers padded to 16 bytes.
pub open spec fn reg_extra_bytes(r: Register) -> Seq<u8> {
    match r {
        Register::Interval(iv) => be64_bytes(iv.spec_millis() as int)
            + be32_bytes(iv.spec_offset() as int) + seq![0u8, 0u8, 0u8, 0u8],
        Register::PulseAudio(_) => Seq::empty(),
    }
}

/// The 16-byte table entry of a register whose extra data begins `off` bytes
/// into the extra-data region.  A register without payload stores offset 0.
pub open spec fn reg_entry_bytes(r: Register, off: int) -> Seq<u8> {
    be16_bytes(reg_id(r) as int) + be32_bytes(reg_mask(r) as int)
        + be32_bytes(if reg_extra_len(r) > 0 { off } else { 0 })
        + seq![0u8, 0u8, 0u8, 0u8, 0u8, 0u8]
}

/// Total length of the extra-data region for a register sequence.
pub open spec fn extra_total(rs: Seq<Register>) -> int
    decreases rs.len(),
{
    if rs.len() == 0 {
        0
    } else {
        reg_extra_len(rs[0]) + extra_total(rs.skip(1))
    }
}

/// The concatenated table entries for `rs`, the first one's extra data
/// starting at offset `off` in the extra-data region.
pub open spec fn entries_bytes(rs: Seq<Register>, off: int) -> Seq<u8>
    decreases rs.len(),
{
    if rs.len() == 0 {
        Seq::empty()
    } else {
        reg_entry_bytes(rs[0], off) + entries_bytes(rs.skip(1), off + reg_extra_len(rs[0]))
    }
}

/// The concatenated extra-data region for `rs`.
pub open spec fn extras_bytes(rs: Seq<Register>) -> Seq<u8>
    decreases rs.len(),
{
    if rs.len() == 0 {
        Seq::empty()
    } else {
        reg_extra_bytes(rs[0]) + extras_bytes(rs.skip(1))
    }
}

/// The whole serialized register table: header, entries, extra data.
/// The header stores the total byte size, format version 1, and the count.
pub open spec fn table_bytes(rs: Seq<Register>) -> Seq<u8> {
    be32_bytes(16 + 16 * rs.len() + extra_total(rs)) + seq![0u8, 1u8]
        + be16_bytes(rs.len() as int) + seq![0u8, 0u8, 0u8, 0u8, 0u8, 0u8, 0u8, 0u8]
        + entries_bytes(rs, 0) + extras_bytes(rs)
}

/// Entry `j` repeats the tag of an earlier entry although that tag does not
/// allow duplicates.
pub open spec fn dup_at(rs: Seq<Register>, j: int) -> bool {
    exists|i: int| 0 <= i < j && reg_id(rs[i]) == reg_id(rs[j])
        && !id_allows_duplicates(reg_id(rs[j]))
}

/// The sequence violates the per-tag duplicate policy somewhere.
pub open spec fn has_duplicate(rs: Seq<Register>) -> bool {
    exists|j: int| 0 <= j < rs.len() && dup_at(rs, j)
}

/// The registers a module declares at setup, in declaration order.
#[derive(Debug)]
pub struct Registers {
    pub registers: Vec<Register>,
}

impl Registers {
    /// The declared registers, in order.
    pub open spec fn spec_registers(self) -> Seq<Register> {
        self.registers@
    }

    pub fn new() -> (r: Registers)
        ensures
            r.spec_registers() == Seq::<Register>::empty(),
    {
        Registers { registers: vec![] }
    }

    /// Builds the table from an already collected register list.
    pub fn from_macro(registers: Vec<Register>) -> (r: Self)
        ensures
            r.spec_registers() == registers@,
    {
        Registers { registers }
    }

    /// Appends one register declaration.
    pub fn push(&mut self, r: Register)
        ensures
            final(self).spec_registers() == old(self).spec_registers().push(r),
    {
        self.registers.push(r);
    }

    /// Serializes the table into the binary wire format.
    ///
    /// Duplicate checking happens here, before any bytes are produced: a
    /// repeated non-repeatable tag is a validation failure, never a crash,
    /// and the decode side trusts that an encoded table passed this check.
    #[verifier::rlimit(100)]
pub fn serialize(&self) -> (r: Result<Vec<u8>, WireError>)
        ensures
            match r {
                Ok(b) => self.spec_registers().len() <= 0xFFFF
                    && !has_duplicate(self.spec_registers())
                    && b@ == table_bytes(self.spec_registers()),
                Err(WireError::TooManyRegisters) => self.spec_registers().len() > 0xFFFF,
                Err(WireError::DuplicateRegister(id)) => self.spec_registers().len() <= 0xFFFF
                    && has_duplicate(self.spec_registers())
                    && (exists|j: int| 0 <= j < self.spec_registers().len()
                        && dup_at(self.spec_registers(), j)
                        && reg_id(self.spec_registers()[j]) == id),
                Err(_) => false,
            },
            r is Err <==> (self.spec_registers().len() > 0xFFFF
                || has_duplicate(self.spec_registers())),
    {
        let ghost rs = self.registers@;
        let n = self.registers.len();
        if n > 0xFFFF {
            return Err(WireError::TooManyRegisters);
        }

        let mut entries: Vec<u8> = Vec::new();
        let mut extra: Vec<u8> = Vec::new();
        let mut seen: Vec<u16> = Vec::new();
        let mut offset: u32 = 0;
        let mut i: usize = 0;

        proof {
            lemma_extra_total_bound(rs);
        }

        while i < n
            invariant
                i <= n,
                n == rs.len(),
                n <= 0xFFFF,
                self.registers@ == rs,
                entries@ == entries_bytes(rs.take(i as int), 0),
                extra@ == extras_bytes(rs.take(i as int)),
                offset == extra_total(rs.take(i as int)),
                offset <= 16 * i,
                forall|j: int| 0 <= j < i ==> !dup_at(rs, j),
                forall|id: u16| seen@.contains(id)
                    <==> exists|k: int| 0 <= k < i && reg_id(rs[k]) == id,
            decreases n - i,
        {
            let r = self.registers[i];
            let id: u16 = match r {
                Register::Interval(_) => Interval::const_id(),
                Register::PulseAudio(_) => PulseAudio::const_id(),
            };
            let allow_dup: bool = match r {
                Register::Interval(_) => Interval::const_allow_duplicates(),
                Register::PulseAudio(_) => PulseAudio::const_allow_duplicates(),
            };
            if seen_contains(&seen, id) && !allow_dup {
                proof {
                    assert(reg_id(rs[i as int]) == id);
                    assert(dup_at(self.spec_registers(), i as int));
                    assert(exists|j: int| 0 <= j < self.spec_registers().len()
                        && dup_at(self.spec_registers(), j)
                        && reg_id(self.spec_registers()[j]) == id);
                    assert(has_duplicate(self.spec_registers()));
                }
                return Err(WireError::DuplicateRegister(id));
            }
            proof {
                if dup_at(rs, i as int) {
                    let k = choose|k: int| 0 <= k < i && reg_id(rs[k]) == reg_id(rs[i as int])
                        && !id_allows_duplicates(reg_id(rs[i as int]));
                    assert(seen@.contains(reg_id(rs[k])));
                }
            }
            let ghost seen_pre = seen@;
            seen.push(id);
            proof {
                assert forall|q: u16| #[trigger] seen@.contains(q)
                    implies exists|k: int| 0 <= k < i + 1 && reg_id(rs[k]) == q by {
                    let idx = choose|idx: int| 0 <= idx < seen@.len() && seen@[idx] == q;
                    if idx < seen_pre.len() {
                        assert(seen_pre[idx] == q);
                        assert(seen_pre.contains(q));
                    } else {
                        assert(q == id);
                        assert(reg_id(rs[i as int]) == q);
                    }
                }
                assert forall|q: u16| exists|k: int| 0 <= k < i + 1 && reg_id(rs[k]) == q
                    implies #[trigger] seen@.contains(q) by {
                    let k = choose|k: int| 0 <= k < i + 1 && reg_id(rs[k]) == q;
                    if k < i {
                        assert(seen_pre.contains(q));
                        let idx = choose|idx: int| 0 <= idx < seen_pre.len()
                            && seen_pre[idx] == q;
                        assert(seen@[idx] == q);
                    } else {
                        assert(seen@[seen_pre.len() as int] == id);
                    }
                }
            }

            let ghost entries_pre = entries@;
            let mask: u32 = match r {
                Register::Interval(_) => 0,
                Register::PulseAudio(p) => p.0 as u32,
            };
            push_u16_be(&mut entries, id);
            push_u32_be(&mut entries, mask);
            match r {
                Register::Interval(_) => {
                    push_u32_be(&mut entries, offset);
                }
                Register::PulseAudio(_) => {
                    push_u32_be(&mut entries, 0);
                }
            }
            assert(entries@ =~= entries_pre
                + reg_entry_bytes(rs[i as int], extra_total(rs.take(i as int))).take(10));
            let mut pad: usize = 0;
            while pad < 6
                invariant
                    pad <= 6,
                    entries@ == entries_pre + reg_entry_bytes(rs[i as int], extra_total(rs.take(i as int))).take(10 + pad as int),
                decreases 6 - pad,
            {
                entries.push(0u8);
                assert(entries@ =~= entries_pre + reg_entry_bytes(rs[i as int], extra_total(rs.take(i as int))).take(10 + (pad + 1) as int));
                pad = pad + 1;
            }
            assert(entries@ =~= entries_pre + reg_entry_bytes(rs[i as int], extra_total(rs.take(i as int))));

            let ghost extra_pre = extra@;
            match r {
                Register::Interval(iv) => {
                    push_u64_be(&mut extra, iv.milliseconds);
                    push_u32_be(&mut extra, iv.offset);
                    extra.push(0u8);
                    extra.push(0u8);
                    extra.push(0u8);
                    extra.push(0u8);
                    assert(extra@ =~= extra_pre + reg_extra_bytes(rs[i as int]));
                    proof {
                        lemma_extra_total_bound(rs.take(i as int));
                    }
                    offset = offset + 16;
                }
                Register::PulseAudio(_) => {
                    assert(extra@ =~= extra_pre + reg_extra_bytes(rs[i as int]));
                }
            }

            proof {
                lemma_entries_snoc(rs.take(i as int), rs[i as int], 0);
                lemma_extras_snoc(rs.take(i as int), rs[i as int]);
                lemma_extra_total_snoc(rs.take(i as int), rs[i as int]);
                assert(rs.take(i as int).push(rs[i as int]) =~= rs.take(i + 1));
            }
            i = i + 1;
        }

        proof {
            assert(rs.take(n as int) =~= rs);
            assert(!has_duplicate(rs));
            lemma_entries_len(rs, 0);
            lemma_extras_len(rs);
            lemma_extra_total_bound(rs);
        }

        let total: u32 = 16 + (entries.len() as u32) + (extra.len() as u32);
        let mut out: Vec<u8> = Vec::new();
        push_u32_be(&mut out, total);
        out.push(0u8);
        out.push(1u8);
        push_u16_be(&mut out, n as u16);
        let mut pad: usize = 0;
        let ghost header_pre = out@;
        while pad < 8
            invariant
                pad <= 8,
                out@ == header_pre + seq![0u8, 0u8, 0u8, 0u8, 0u8, 0u8, 0u8, 0u8].take(pad as int),
            decreases 8 - pad,
        {
            out.push(0u8);
            assert(out@ =~= header_pre + seq![0u8, 0u8, 0u8, 0u8, 0u8, 0u8, 0u8, 0u8].take((pad + 1) as int));
            pad = pad + 1;
        }
        let mut k: usize = 0;
        let ghost body_pre = out@;
        while k < entries.len()
            invariant
                k <= entries@.len(),
                out@ == body_pre + entries@.take(k as int),
            decreases entries@.len() - k,
        {
            out.push(entries[k]);
            assert(out@ =~= body_pre + entries@.take((k + 1) as int));
            k = k + 1;
        }
        assert(out@ =~= body_pre + entries@);
        let mut k: usize = 0;
        let ghost tail_pre = out@;
        while k < extra.len()
            invariant
                k <= extra@.len(),
                out@ == tail_pre + extra@.take(k as int),
            decreases extra@.len() - k,
        {
            out.push(extra[k]);
            assert(out@ =~= tail_pre + extra@.take((k + 1) as int));
            k = k + 1;
        }
        assert(out@ =~= tail_pre + extra@);
        assert(out@ =~= table_bytes(rs));
        Ok(out)
    }
}

/// Linear scan used by the encoder's duplicate check.
fn seen_contains(seen: &Vec<u16>, id: u16) -> (r: bool)
    ensures
        r == seen@.contains(id),
{
    let mut i: usize = 0;
    while i < seen.len()
        invariant
            i <= seen@.len(),
            forall|j: int| 0 <= j < i ==> seen@[j] != id,
        decreases seen@.len() - i,
    {
        if seen[i] == id {
            return true;
        }
        i = i + 1;
    }
    false
}

/// `entries_bytes` of a sequence with one register appended: the appended
/// entry comes last and its extra data starts after all earlier extra data.
#[verifier::rlimit(100)]
pub proof fn lemma_entries_snoc(rs: Seq<Register>, x: Register, off: int)
    ensures
        entries_bytes(rs.push(x), off)
            == entries_bytes(rs, off) + reg_entry_bytes(x, off + extra_total(rs)),
    decreases rs.len(),
{
    let s = rs.push(x);
    if rs.len() == 0 {
        assert(s[0] == x);
        assert(s.skip(1) =~= Seq::<Register>::empty());
        assert(entries_bytes(s.skip(1), off + reg_extra_len(x)) == Seq::<u8>::empty());
        assert(entries_bytes(s, off)
            == reg_entry_bytes(x, off) + entries_bytes(s.skip(1), off + reg_extra_len(x)));
        assert(entries_bytes(rs, off) == Seq::<u8>::empty());
        assert(extra_total(rs) == 0);
        assert(entries_bytes(s, off)
            =~= entries_bytes(rs, off) + reg_entry_bytes(x, off + extra_total(rs)));
    } else {
        assert(s[0] == rs[0]);
        assert(s.skip(1) =~= rs.skip(1).push(x));
        lemma_entries_snoc(rs.skip(1), x, off + reg_extra_len(rs[0]));
        assert(entries_bytes(s, off) == reg_entry_bytes(rs[0], off)
            + entries_bytes(s.skip(1), off + reg_extra_len(rs[0])));
        assert(entries_bytes(s.skip(1), off + reg_extra_len(rs[0]))
            == entries_bytes(rs.skip(1), off + reg_extra_len(rs[0]))
                + reg_entry_bytes(x, off + reg_extra_len(rs[0]) + extra_total(rs.skip(1))));
        assert(extra_total(rs) == reg_extra_len(rs[0]) + extra_total(rs.skip(1)));
        assert(entries_bytes(rs, off) == reg_entry_bytes(rs[0], off)
            + entries_bytes(rs.skip(1), off + reg_extra_len(rs[0])));
        assert(entries_bytes(s, off)
            =~= entries_bytes(rs, off) + reg_entry_bytes(x, off + extra_total(rs)));
    }
}

/// `extras_bytes` of a sequence with one register appended.
#[verifier::rlimit(100)]
pub proof fn lemma_extras_snoc(rs: Seq<Register>, x: Register)
    ensures
        extras_bytes(rs.push(x)) == extras_bytes(rs) + reg_extra_bytes(x),
    decreases rs.len(),
{
    let s = rs.push(x);
    if rs.len() == 0 {
        assert(s[0] == x);
        assert(s.skip(1) =~= Seq::<Register>::empty());
        assert(extras_bytes(s.skip(1)) == Seq::<u8>::empty());
        assert(extras_bytes(s) == reg_extra_bytes(x) + extras_bytes(s.skip(1)));
        assert(extras_bytes(rs) == Seq::<u8>::empty());
        assert(extras_bytes(s) =~= extras_bytes(rs) + reg_extra_bytes(x));
    } else {
        assert(s[0] == rs[0]);
        assert(s.skip(1) =~= rs.skip(1).push(x));
        lemma_extras_snoc(rs.skip(1), x);
        assert(extras_bytes(s) == reg_extra_bytes(rs[0]) + extras_bytes(s.skip(1)));
        assert(extras_bytes(s.skip(1)) == extras_bytes(rs.skip(1)) + reg_extra_bytes(x));
        assert(extras_bytes(rs) == reg_extra_bytes(rs[0]) + extras_bytes(rs.skip(1)));
        assert(extras_bytes(s) =~= extras_bytes(rs) + reg_extra_bytes(x));
    }
}

/// `extra_total` of a sequence with one register appended.
pub proof fn lemma_extra_total_snoc(rs: Seq<Register>, x: Register)
    ensures
        extra_total(rs.push(x)) == extra_total(rs) + reg_extra_len(x),
    decreases rs.len(),
{
    let s = rs.push(x);
    if rs.len() == 0 {
        assert(s[0] == x);
        assert(s.skip(1) =~= Seq::<Register>::empty());
        assert(extra_total(s.skip(1)) == 0);
        assert(s.len() == 1);
        assert(extra_total(s) == reg_extra_len(x) + extra_total(s.skip(1)));
        assert(extra_total(rs) == 0);
    } else {
        assert(s[0] == rs[0]);
        assert(s.skip(1) =~= rs.skip(1).push(x));
        assert(s.skip(1) == rs.skip(1).push(x));
        lemma_extra_total_snoc(rs.skip(1), x);
        assert(extra_total(s) == reg_extra_len(s[0]) + extra_total(s.skip(1)));
        assert(extra_total(s.skip(1)) == extra_total(rs.skip(1)) + reg_extra_len(x));
        assert(extra_total(rs) == reg_extra_len(rs[0]) + extra_total(rs.skip(1)));
        assert(extra_total(s) == extra_total(rs) + reg_extra_len(x));
    }
}

/// The extra-data region is never larger than 16 bytes per register.
pub proof fn lemma_extra_total_bound(rs: Seq<Register>)
    ensures
        0 <= extra_total(rs) <= 16 * rs.len(),
    decreases rs.len(),
{
    if rs.len() > 0 {
        lemma_extra_total_bound(rs.skip(1));
    }
}

/// Extra-region length equals the summed per-register extra lengths.
pub proof fn lemma_extras_len(rs: Seq<Register>)
    ensures
        extras_bytes(rs).len() == extra_total(rs),
    decreases rs.len(),
{
    if rs.len() > 0 {
        lemma_extras_len(rs.skip(1));
    }
}

/// Splitting a register sequence splits its extra-data total.
#[verifier::rlimit(100)]
pub proof fn lemma_extra_total_split(rs: Seq<Register>, k: int)
    requires
        0 <= k <= rs.len(),
    ensures
        extra_total(rs) == extra_total(rs.take(k)) + extra_total(rs.skip(k)),
    decreases k,
{
    if k == 0 {
        assert(rs.take(0) =~= Seq::<Register>::empty());
        assert(rs.skip(0) =~= rs);
    } else {
        lemma_extra_total_split(rs, k - 1);
        lemma_extra_total_snoc(rs.take(k - 1), rs[k - 1]);
        assert(rs.take(k - 1).push(rs[k - 1]) =~= rs.take(k));
        assert(rs.skip(k - 1) =~= seq![rs[k - 1]] + rs.skip(k));
        assert(rs.skip(k - 1)[0] == rs[k - 1]);
        assert(rs.skip(k - 1).skip(1) =~= rs.skip(k));
        assert(extra_total(rs.skip(k - 1))
            == reg_extra_len(rs[k - 1]) + extra_total(rs.skip(k)));
    }
}

/// The bytes of the extra-data region between the extra-data totals of the
/// registers before `i` and through `i` are register `i`'s own payload.
#[verifier::rlimit(100)]
pub proof fn lemma_extras_mid(rs: Seq<Register>, i: int)
    requires
        0 <= i < rs.len(),
    ensures
        extras_bytes(rs).subrange(
            extra_total(rs.take(i)),
            extra_total(rs.take(i)) + reg_extra_len(rs[i]),
        ) == reg_extra_bytes(rs[i]),
    decreases i,
{
    lemma_extras_len(rs);
    lemma_extra_total_bound(rs.take(i));
    lemma_extra_total_split(rs, i);
    assert(rs.skip(i)[0] == rs[i]);
    assert(extra_total(rs.skip(i)) == reg_extra_len(rs[i]) + extra_total(rs.skip(i).skip(1)));
    lemma_extra_total_bound(rs.skip(i).skip(1));
    if i == 0 {
        assert(rs.take(0) =~= Seq::<Register>::empty());
        lemma_extras_len(rs.skip(1));
        assert(extras_bytes(rs) == reg_extra_bytes(rs[0]) + extras_bytes(rs.skip(1)));
        assert(extras_bytes(rs).subrange(0, reg_extra_len(rs[0]))
            =~= reg_extra_bytes(rs[0]));
    } else {
        lemma_extras_mid(rs.skip(1), i - 1);
        assert(rs.skip(1)[i - 1] == rs[i]);
        assert(rs.skip(1).take(i - 1) =~= rs.take(i).skip(1));
        assert(extra_total(rs.take(i))
            == reg_extra_len(rs[0]) + extra_total(rs.take(i).skip(1)));
        lemma_extras_len(rs.skip(1));
        lemma_extra_total_bound(rs.skip(1).take(i - 1));
        assert(extras_bytes(rs) == reg_extra_bytes(rs[0]) + extras_bytes(rs.skip(1)));
        let a = extra_total(rs.take(i));
        let b = reg_extra_len(rs[i]);
        let l0 = reg_extra_len(rs[0]);
        assert(extras_bytes(rs.skip(1)).subrange(a - l0, a - l0 + b)
            == reg_extra_bytes(rs[i]));
        assert(reg_extra_bytes(rs[0]).len() == l0);
        assert(extras_bytes(rs).subrange(a, a + b)
            =~= extras_bytes(rs.skip(1)).subrange(a - l0, a - l0 + b));
    }
}

/// Entry-region length: 16 bytes per register.
pub proof fn lemma_entries_len(rs: Seq<Register>, off: int)
    ensures
        entries_bytes(rs, off).len() == 16 * rs.len(),
    decreases rs.len(),
{
    if rs.len() > 0 {
        lemma_entries_len(rs.skip(1), off + reg_extra_len(rs[0]));
    }
}

/// The 16 bytes at position `16 * i` of the entry region are the entry of
/// register `i`, with its extra data placed after all earlier extra data.
#[verifier::rlimit(100)]
pub proof fn lemma_entries_mid(rs: Seq<Register>, i: int, off: int)
    requires
        0 <= i < rs.len(),
    ensures
        entries_bytes(rs, off).subrange(16 * i, 16 * i + 16)
            == reg_entry_bytes(rs[i], off + extra_total(rs.take(i))),
    decreases i,
{
    lemma_entries_len(rs, off);
    lemma_entries_len(rs.skip(1), off + reg_extra_len(rs[0]));
    if i == 0 {
        assert(rs.take(0) =~= Seq::<Register>::empty());
        assert(entries_bytes(rs, off).subrange(0, 16) =~= reg_entry_bytes(rs[0], off));
    } else {
        lemma_entries_mid(rs.skip(1), i - 1, off + reg_extra_len(rs[0]));
        assert(rs.skip(1).take(i - 1) =~= rs.take(i).skip(1));
        assert(extra_total(rs.take(i)) == reg_extra_len(rs[0]) + extra_total(rs.take(i).skip(1)));
        assert(entries_bytes(rs, off).subrange(16 * i, 16 * i + 16)
            =~= entries_bytes(rs.skip(1), off + reg_extra_len(rs[0]))
                .subrange(16 * (i - 1), 16 * (i - 1) + 16));
    }
}

} // verus!
