//! Layer-surface descriptors and their wire form.
//!
//! At setup a module declares each surface it wants: a module-local id it
//! leased from the host, the layer to stack on, anchoring, optional size,
//! margins, size limits, and input behaviour.  The descriptor crosses the
//! boundary as a fixed 32-byte record whose margin and limits fields are
//! pointers to further fixed records in guest memory; everything here is
//! read bounds-checked and validated field by field.  Size limits are
//! carried as raw 32-bit patterns of the guest's 4-field limit record —
//! the host hands them on to the rendering layer uninterpreted.

use vstd::prelude::*;

use crate::WireError;
use crate::lease::WasmId;
use crate::mem::le32_at;

verus! {

/// A module-local surface id, leased from the host; 0 means "no id".
#[derive(Debug, Default, Clone, Copy, PartialEq, Eq, Structural)]
pub struct Id(pub u32);

impl Id {
    pub fn get_id(&self) -> (r: u32)
        ensures
            r == self.0,
    {
        self.0
    }
}

/// The stacking layer a surface renders on.
#[derive(Debug, Clone, Copy, PartialEq, Eq, Structural)]
pub enum Layer {
    Background,
    Bottom,
    Top,
    Overlay,
}

impl Layer {
    /// The wire discriminant of this layer.
    pub open spec fn spec_code(self) -> u8 {
        match self {
            Layer::Background => 0,
            Layer::Bottom => 1,
            Layer::Top => 2,
            Layer::Overlay => 3,
        }
    }

    /// The wire discriminant of this layer.
    pub fn code(self) -> (r: u8)
        ensures
            r == self.spec_code(),
    {
        match self {
            Layer::Background => 0,
            Layer::Bottom => 1,
            Layer::Top => 2,
            Layer::Overlay => 3,
        }
    }

    /// Decodes a layer discriminant; unknown values are rejected.
    pub open spec fn spec_from_code(value: u8) -> Option<Layer> {
        if value == 0 {
            Some(Layer::Background)
        } else if value == 1 {
            Some(Layer::Bottom)
        } else if value == 2 {
            Some(Layer::Top)
        } else if value == 3 {
            Some(Layer::Overlay)
        } else {
            None
        }
    }

    /// Decodes a layer discriminant; unknown values are rejected.
    pub fn from_code(value: u8) -> (r: Option<Layer>)
        ensures
            r == Layer::spec_from_code(value),
    {
        if value == 0 {
            Some(Layer::Background)
        } else if value == 1 {
            Some(Layer::Bottom)
        } else if value == 2 {
            Some(Layer::Top)
        } else if value == 3 {
            Some(Layer::Overlay)
        } else {
            None
        }
    }
}

/// Which screen edges a surface is anchored to, one bit per edge:
/// top 1, bottom 2, left 4, right 8.
#[derive(Debug, Clone, Copy, PartialEq, Eq, Structural)]
pub struct Anchor(pub u8);

impl Anchor {
    /// Anchored to no edge.
    pub fn none() -> (r: Anchor)
        ensures
            r.0 == 0,
    {
        Anchor(0b0000)
    }

    /// Anchored to every edge.
    pub fn all() -> (r: Anchor)
        ensures
            r.0 == 0b1111,
    {
        Anchor(0b1111)
    }
}

/// Margins around a surface, in surface coordinates.
#[derive(Debug, Clone, Copy, PartialEq, Eq, Structural)]
pub struct Margin {
    pub top: i32,
    pub right: i32,
    pub bottom: i32,
    pub left: i32,
}

/// The guest's 4-field size-limit record, carried as raw 32-bit patterns:
/// minimum and maximum width and height.  The host never interprets the
/// numeric values; the rendering layer does.
#[derive(Debug, Clone, Copy, PartialEq, Eq, Structural)]
pub struct LimitsBits {
    pub min_width_bits: u32,
    pub max_width_bits: u32,
    pub min_height_bits: u32,
    pub max_height_bits: u32,
}

/// How a surface takes keyboard focus.
#[derive(Debug, Clone, Copy, PartialEq, Eq, Structural)]
pub enum KeyboardInteractivity {
    NoInput,
    Exclusive,
    OnDemand,
}

impl KeyboardInteractivity {
    /// Decodes a keyboard-interactivity discriminant.
    pub open spec fn spec_from_code(value: u8) -> Option<KeyboardInteractivity> {
        if value == 0 {
            Some(KeyboardInteractivity::NoInput)
        } else if value == 1 {
            Some(KeyboardInteractivity::Exclusive)
        } else if value == 2 {
            Some(KeyboardInteractivity::OnDemand)
        } else {
            None
        }
    }

    /// Decodes a keyboard-interactivity discriminant.
    pub fn from_code(value: u8) -> (r: Option<KeyboardInteractivity>)
        ensures
            r == KeyboardInteractivity::spec_from_code(value),
    {
        if value == 0 {
            Some(KeyboardInteractivity::NoInput)
        } else if value == 1 {
            Some(KeyboardInteractivity::Exclusive)
        } else if value == 2 {
            Some(KeyboardInteractivity::OnDemand)
        } else {
            None
        }
    }
}

/// The raw 32-byte wire record describing one surface.  `size_flags` bit 1
/// says a size is present, bit 2 that its width is set, bit 4 its height.
/// `margin_ptr` and `limits_ptr` point at further records in guest memory.
#[derive(Debug, Clone, Copy, PartialEq, Eq, Structural)]
pub struct LayerSurfaceRaw {
    pub id: u32,
    pub layer: u8,
    pub anchor: u8,
    pub size_flags: u8,
    pub size_x: u32,
    pub size_y: u32,
    pub margin_ptr: u32,
    pub limits_ptr: u32,
    pub exclusive_zone: i32,
    pub keyboard_interactivity: u8,
    pub pointer_interactivity: u8,
}

/// The signed value whose two's-complement 32-bit pattern is `v`.
pub open spec fn i32_of_bits(v: int) -> int {
    if v < 0x8000_0000 {
        v
    } else {
        v - 0x1_0000_0000
    }
}

/// Reinterprets a 32-bit pattern as the signed value it encodes.
pub fn i32_from_u32(v: u32) -> (r: i32)
    ensures
        r == i32_of_bits(v as int),
{
    if v < 0x8000_0000 {
        v as i32
    } else {
        let d: i64 = 0x1_0000_0000i64 - v as i64;
        (-d) as i32
    }
}

/// The surface record read from `m` at byte offset `off`.
pub open spec fn spec_surface_at(m: Seq<u8>, off: int) -> LayerSurfaceRaw {
    LayerSurfaceRaw {
        id: le32_at(m, off) as u32,
        layer: m[off + 4],
        anchor: m[off + 5],
        size_flags: m[off + 6],
        size_x: le32_at(m, off + 8) as u32,
        size_y: le32_at(m, off + 12) as u32,
        margin_ptr: le32_at(m, off + 16) as u32,
        limits_ptr: le32_at(m, off + 20) as u32,
        exclusive_zone: i32_of_bits(le32_at(m, off + 24)) as i32,
        keyboard_interactivity: m[off + 28],
        pointer_interactivity: m[off + 29],
    }
}

/// Reads surface record `index` of the table at byte offset `base`.
#[verifier::rlimit(100)]
pub fn read_layer_surface_raw(memory: &Vec<u8>, base: u32, index: u32) -> (r: Result<
    LayerSurfaceRaw,
    WireError,
>)
    ensures
        match r {
            Ok(s) => base + 32 * index + 32 <= memory@.len() && s == spec_surface_at(
                memory@,
                base + 32 * index,
            ),
            Err(e) => e == WireError::OutOfBounds && base + 32 * index + 32 > memory@.len(),
        },
{
    let off64: u64 = base as u64 + 32u64 * (index as u64);
    if off64 + 32 > memory.len() as u64 {
        return Err(WireError::OutOfBounds);
    }
    let off = off64 as usize;
    let id = match crate::mem::read_u32_le(memory, off) {
        Ok(v) => v,
        Err(_) => {
            assert(false);
            return Err(WireError::OutOfBounds);
        }
    };
    let layer = memory[off + 4];
    let anchor = memory[off + 5];
    let size_flags = memory[off + 6];
    let size_x = match crate::mem::read_u32_le(memory, off + 8) {
        Ok(v) => v,
        Err(_) => {
            assert(false);
            return Err(WireError::OutOfBounds);
        }
    };
    let size_y = match crate::mem::read_u32_le(memory, off + 12) {
        Ok(v) => v,
        Err(_) => {
            assert(false);
            return Err(WireError::OutOfBounds);
        }
    };
    let margin_ptr = match crate::mem::read_u32_le(memory, off + 16) {
        Ok(v) => v,
        Err(_) => {
            assert(false);
            return Err(WireError::OutOfBounds);
        }
    };
    let limits_ptr = match crate::mem::read_u32_le(memory, off + 20) {
        Ok(v) => v,
        Err(_) => {
            assert(false);
            return Err(WireError::OutOfBounds);
        }
    };
    let ez_bits = match crate::mem::read_u32_le(memory, off + 24) {
        Ok(v) => v,
        Err(_) => {
            assert(false);
            return Err(WireError::OutOfBounds);
        }
    };
    let keyboard_interactivity = memory[off + 28];
    let pointer_interactivity = memory[off + 29];
    Ok(LayerSurfaceRaw {
        id,
        layer,
        anchor,
        size_flags,
        size_x,
        size_y,
        margin_ptr,
        limits_ptr,
        exclusive_zone: i32_from_u32(ez_bits),
        keyboard_interactivity,
        pointer_interactivity,
    })
}

/// A surface descriptor after validation: every enum decoded, every
/// pointer followed and bounds-checked, every flag interpreted.
#[derive(Debug, Clone, Copy, PartialEq, Eq)]
pub struct SurfaceParams {
    pub layer: Layer,
    pub anchor: Anchor,
    pub size: Option<(Option<u32>, Option<u32>)>,
    pub margin: Margin,
    pub limits: LimitsBits,
    pub exclusive_zone: i32,
    pub keyboard_interactivity: KeyboardInteractivity,
    pub pointer_interactivity: bool,
}

/// Validates one raw surface record against guest memory.  `None` — the
/// surface is skipped, not fatal — exactly when: the layer, keyboard or
/// pointer discriminant is unknown, an anchor bit beyond the four edges is
/// set, or the margin or limits record reaches past the buffer.
pub open spec fn spec_decode_surface(m: Seq<u8>, raw: LayerSurfaceRaw) -> Option<SurfaceParams> {
    if Layer::spec_from_code(raw.layer) is None {
        None
    } else if raw.anchor > 0b1111 {
        None
    } else if raw.margin_ptr + 16 > m.len() {
        None
    } else if raw.limits_ptr + 16 > m.len() {
        None
    } else if KeyboardInteractivity::spec_from_code(raw.keyboard_interactivity) is None {
        None
    } else if raw.pointer_interactivity > 1 {
        None
    } else {
        Some(SurfaceParams {
            layer: Layer::spec_from_code(raw.layer).unwrap(),
            anchor: Anchor(raw.anchor),
            size: if raw.size_flags & 0b001 != 0 {
                Some(
                    (
                        if raw.size_flags & 0b010 != 0 {
                            Some(raw.size_x)
                        } else {
                            None
                        },
                        if raw.size_flags & 0b100 != 0 {
                            Some(raw.size_y)
                        } else {
                            None
                        },
                    ),
                )
            } else {
                None
            },
            margin: Margin {
                top: i32_of_bits(le32_at(m, raw.margin_ptr as int)) as i32,
                right: i32_of_bits(le32_at(m, raw.margin_ptr + 4)) as i32,
                bottom: i32_of_bits(le32_at(m, raw.margin_ptr + 8)) as i32,
                left: i32_of_bits(le32_at(m, raw.margin_ptr + 12)) as i32,
            },
            limits: LimitsBits {
                min_width_bits: le32_at(m, raw.limits_ptr as int) as u32,
                max_width_bits: le32_at(m, raw.limits_ptr + 4) as u32,
                min_height_bits: le32_at(m, raw.limits_ptr + 8) as u32,
                max_height_bits: le32_at(m, raw.limits_ptr + 12) as u32,
            },
            exclusive_zone: raw.exclusive_zone,
            keyboard_interactivity: KeyboardInteractivity::spec_from_code(
                raw.keyboard_interactivity,
            ).unwrap(),
            pointer_interactivity: raw.pointer_interactivity == 1,
        })
    }
}

/// Validates one raw surface record against guest memory, exactly as the
/// specification decoder does.
#[verifier::rlimit(100)]
pub fn decode_layer_surface(memory: &Vec<u8>, raw: &LayerSurfaceRaw) -> (r: Option<SurfaceParams>)
    ensures
        r == spec_decode_surface(memory@, *raw),
{
    let layer = match Layer::from_code(raw.layer) {
        Some(l) => l,
        None => {
            return None;
        }
    };
    if raw.anchor > 0b1111 {
        return None;
    }
    if raw.margin_ptr as u64 + 16 > memory.len() as u64 {
        return None;
    }
    if raw.limits_ptr as u64 + 16 > memory.len() as u64 {
        return None;
    }
    let keyboard_interactivity = match KeyboardInteractivity::from_code(
        raw.keyboard_interactivity,
    ) {
        Some(k) => k,
        None => {
            return None;
        }
    };
    if raw.pointer_interactivity > 1 {
        return None;
    }
    let mp = raw.margin_ptr as usize;
    let lp = raw.limits_ptr as usize;
    let m0 = match crate::mem::read_u32_le(memory, mp) {
        Ok(v) => v,
        Err(_) => {
            assert(false);
            return None;
        }
    };
    let m1 = match crate::mem::read_u32_le(memory, mp + 4) {
        Ok(v) => v,
        Err(_) => {
            assert(false);
            return None;
        }
    };
    let m2 = match crate::mem::read_u32_le(memory, mp + 8) {
        Ok(v) => v,
        Err(_) => {
            assert(false);
            return None;
        }
    };
    let m3 = match crate::mem::read_u32_le(memory, mp + 12) {
        Ok(v) => v,
        Err(_) => {
            assert(false);
            return None;
        }
    };
    let l0 = match crate::mem::read_u32_le(memory, lp) {
        Ok(v) => v,
        Err(_) => {
            assert(false);
            return None;
        }
    };
    let l1 = match crate::mem::read_u32_le(memory, lp + 4) {
        Ok(v) => v,
        Err(_) => {
            assert(false);
            return None;
        }
    };
    let l2 = match crate::mem::read_u32_le(memory, lp + 8) {
        Ok(v) => v,
        Err(_) => {
            assert(false);
            return None;
        }
    };
    let l3 = match crate::mem::read_u32_le(memory, lp + 12) {
        Ok(v) => v,
        Err(_) => {
            assert(false);
            return None;
        }
    };
    Some(SurfaceParams {
        layer,
        anchor: Anchor(raw.anchor),
        size: if raw.size_flags & 0b001 != 0 {
            Some(
                (
                    if raw.size_flags & 0b010 != 0 {
                        Some(raw.size_x)
                    } else {
                        None
                    },
                    if raw.size_flags & 0b100 != 0 {
                        Some(raw.size_y)
                    } else {
                        None
                    },
                ),
            )
        } else {
            None
        },
        margin: Margin {
            top: i32_from_u32(m0),
            right: i32_from_u32(m1),
            bottom: i32_from_u32(m2),
            left: i32_from_u32(m3),
        },
        limits: LimitsBits {
            min_width_bits: l0,
            max_width_bits: l1,
            min_height_bits: l2,
            max_height_bits: l3,
        },
        exclusive_zone: raw.exclusive_zone,
        keyboard_interactivity,
        pointer_interactivity: raw.pointer_interactivity == 1,
    })
}

/// A surface declaration as a module builds it, before it is flattened
/// into the raw wire record.
#[derive(Debug, Clone, Copy, PartialEq, Eq)]
pub struct LayerSurface {
    pub id: Id,
    pub layer: Layer,
    pub anchor: Anchor,
    pub size: Option<(Option<u32>, Option<u32>)>,
    pub margin: Margin,
    pub limits: LimitsBits,
    pub exclusive_zone: i32,
    pub keyboard_interactivity: KeyboardInteractivity,
    pub pointer_interactivity: bool,
}

impl LayerSurface {
    /// Flattens the declaration into its raw wire record, with the margin
    /// and limits records already placed at the given guest addresses.
    #[verifier::rlimit(100)]
pub fn to_raw(&self, margin_ptr: u32, limits_ptr: u32) -> (r: LayerSurfaceRaw)
        ensures
            r.id == self.id.0,
            r.layer == self.layer.spec_code(),
            r.anchor == self.anchor.0,
            r.size_flags == (match self.size {
                None => 0u8,
                Some((x, y)) => (1 + (if x is Some {
                    2int
                } else {
                    0int
                }) + (if y is Some {
                    4int
                } else {
                    0int
                })) as u8,
            }),
            r.size_x == (match self.size {
                Some((Some(x), _)) => x,
                _ => 0u32,
            }),
            r.size_y == (match self.size {
                Some((_, Some(y))) => y,
                _ => 0u32,
            }),
            r.margin_ptr == margin_ptr,
            r.limits_ptr == limits_ptr,
            r.exclusive_zone == self.exclusive_zone,
            KeyboardInteractivity::spec_from_code(r.keyboard_interactivity) == Some(
                self.keyboard_interactivity,
            ),
            r.pointer_interactivity == (if self.pointer_interactivity {
                1u8
            } else {
                0u8
            }),
    {
        let mut size_flags: u8 = 0;
        let mut size_x: u32 = 0;
        let mut size_y: u32 = 0;
        match self.size {
            Some((x, y)) => {
                size_flags = 1;
                match x {
                    Some(v) => {
                        size_flags = size_flags + 2;
                        size_x = v;
                    }
                    None => {}
                }
                match y {
                    Some(v) => {
                        size_flags = size_flags + 4;
                        size_y = v;
                    }
                    None => {}
                }
            }
            None => {}
        }
        LayerSurfaceRaw {
            id: self.id.0,
            layer: self.layer.code(),
            anchor: self.anchor.0,
            size_flags,
            size_x,
            size_y,
            margin_ptr,
            limits_ptr,
            exclusive_zone: self.exclusive_zone,
            keyboard_interactivity: match self.keyboard_interactivity {
                KeyboardInteractivity::NoInput => 0,
                KeyboardInteractivity::Exclusive => 1,
                KeyboardInteractivity::OnDemand => 2,
            },
            pointer_interactivity: if self.pointer_interactivity {
                1
            } else {
                0
            },
        }
    }
}

/// The ids of the surfaces in `surfaces`, in declaration order, keeping
/// exactly those the lease map `leased` knows.
pub open spec fn leased_ids_of(surfaces: Seq<LayerSurfaceRaw>, leased: Map<u32, u64>) -> Seq<u32>
    decreases surfaces.len(),
{
    if surfaces.len() == 0 {
        Seq::empty()
    } else {
        (if leased.contains_key(surfaces[0].id) {
            seq![surfaces[0].id]
        } else {
            Seq::empty()
        }) + leased_ids_of(surfaces.skip(1), leased)
    }
}

/// `leased_ids_of` of a declaration list with one surface appended.
pub proof fn lemma_leased_ids_snoc(
    surfaces: Seq<LayerSurfaceRaw>,
    x: LayerSurfaceRaw,
    leased: Map<u32, u64>,
)
    ensures
        leased_ids_of(surfaces.push(x), leased) == leased_ids_of(surfaces, leased) + (
        if leased.contains_key(x.id) {
            seq![x.id]
        } else {
            Seq::empty()
        }),
    decreases surfaces.len(),
{
    let s = surfaces.push(x);
    let tail: Seq<u32> = if leased.contains_key(x.id) {
        seq![x.id]
    } else {
        Seq::empty()
    };
    if surfaces.len() == 0 {
        assert(s[0] == x);
        assert(s.skip(1) =~= Seq::<LayerSurfaceRaw>::empty());
        assert(leased_ids_of(s.skip(1), leased) == Seq::<u32>::empty());
        assert(leased_ids_of(surfaces, leased) == Seq::<u32>::empty());
        assert(leased_ids_of(s, leased) =~= leased_ids_of(surfaces, leased) + tail);
    } else {
        assert(s[0] == surfaces[0]);
        assert(s.skip(1) =~= surfaces.skip(1).push(x));
        lemma_leased_ids_snoc(surfaces.skip(1), x, leased);
        assert(leased_ids_of(s, leased) == (if leased.contains_key(surfaces[0].id) {
            seq![surfaces[0].id]
        } else {
            Seq::empty()
        }) + leased_ids_of(s.skip(1), leased));
        assert(leased_ids_of(surfaces, leased) == (if leased.contains_key(surfaces[0].id) {
            seq![surfaces[0].id]
        } else {
            Seq::empty()
        }) + leased_ids_of(surfaces.skip(1), leased));
        assert(leased_ids_of(s, leased) =~= leased_ids_of(surfaces, leased) + tail);
    }
}

/// The surface ids a module actually used: exactly the ids of its declared
/// surfaces that the lease table really leased to it, in declaration
/// order, one entry per declaration.
pub fn collect_used_surface_ids(surfaces: &Vec<LayerSurfaceRaw>, leases: &WasmId) -> (r: Vec<u32>)
    ensures
        r@ == leased_ids_of(surfaces@, leases.spec_leased()),
{
    let mut out: Vec<u32> = Vec::new();
    let mut i: usize = 0;
    while i < surfaces.len()
        invariant
            i <= surfaces@.len(),
            out@ == leased_ids_of(surfaces@.take(i as int), leases.spec_leased()),
        decreases surfaces@.len() - i,
    {
        proof {
            lemma_leased_ids_snoc(surfaces@.take(i as int), surfaces@[i as int],
                leases.spec_leased());
            assert(surfaces@.take(i as int).push(surfaces@[i as int]) =~= surfaces@.take(i + 1));
        }
        let ghost out_pre = out@;
        if leases.has_lease(surfaces[i].id) {
            out.push(surfaces[i].id);
            assert(out@ =~= out_pre + seq![surfaces@[i as int].id]);
        } else {
            assert(out@ =~= out_pre + Seq::<u32>::empty());
        }
        i = i + 1;
    }
    proof {
        assert(surfaces@.take(surfaces@.len() as int) =~= surfaces@);
    }
    out
}

} // verus!
