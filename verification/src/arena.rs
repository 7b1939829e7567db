//! Shared wire representation of a render call's widget-tree arena.
//!
//! A module's render entry point hands the host a set of flat,
//! index-addressed tables living in guest memory: an element table, a
//! children-index table, and per-widget payload tables (text bytes, text
//! style, slider values).  A tree is described entirely by plain integers,
//! so it crosses the sandbox boundary as bytes with no pointer graph to
//! rehydrate.  The guest-side encoder lives in [`crate::view`], the
//! host-side decoder in [`crate::ui`]; this module holds the record types,
//! their byte layouts, and the abstract tree both sides are measured
//! against.
//!
//! All records use the guest's native little-endian byte order and are read
//! without any alignment assumption.

use vstd::prelude::*;

use crate::mem::{le32_at, le32_bytes, le64_at, le64_bytes, lemma_le32_roundtrip,
    lemma_le64_roundtrip};

verus! {

/// The wire tag of each element kind.
#[derive(Debug, Clone, Copy, PartialEq, Eq, Structural)]
pub enum ElementTag {
    Row,
    Column,
    Text,
    Button,
    Slider,
    Stack,
}

impl ElementTag {
    /// The byte written in an element record's tag field.
    pub open spec fn spec_code(self) -> u8 {
        match self {
            ElementTag::Row => 1,
            ElementTag::Column => 2,
            ElementTag::Text => 3,
            ElementTag::Button => 4,
            ElementTag::Slider => 5,
            ElementTag::Stack => 6,
        }
    }

    /// The byte written in an element record's tag field.
    pub fn code(self) -> (r: u8)
        ensures
            r == self.spec_code(),
    {
        match self {
            ElementTag::Row => 1,
            ElementTag::Column => 2,
            ElementTag::Text => 3,
            ElementTag::Button => 4,
            ElementTag::Slider => 5,
            ElementTag::Stack => 6,
        }
    }
}

/// One element record of the arena's element table: 20 bytes on the wire.
/// Indices address the other tables; which of them carry meaning depends on
/// the tag.  `callback_index` 0 means "no callback".
#[derive(Debug, Clone, Copy, PartialEq, Eq, Structural)]
pub struct RawElement {
    pub tag: u8,
    pub child_count: u8,
    pub children_index: u32,
    pub data_index: u32,
    pub callback_index: u32,
    pub style_index: u32,
}

/// One text payload record: where the content bytes live and how many.
#[derive(Debug, Clone, Copy, PartialEq, Eq, Structural)]
pub struct RawTextData {
    pub content_ptr: u32,
    pub content_len: u32,
}

/// One text style record: a color code, 0 meaning "unstyled".
#[derive(Debug, Clone, Copy, PartialEq, Eq, Structural)]
pub struct RawStyle {
    pub text_color: u8,
}

/// Which numeric representation a slider's 64-bit fields carry.  The host
/// never interprets the bit patterns itself; it hands them on tagged.
#[derive(Debug, Clone, Copy, PartialEq, Eq, Structural)]
pub enum SliderNumberType {
    I32,
    F32,
    F64,
}

impl SliderNumberType {
    /// The byte written in a slider record's number-type field.
    pub open spec fn spec_code(self) -> u8 {
        match self {
            SliderNumberType::I32 => 0,
            SliderNumberType::F32 => 1,
            SliderNumberType::F64 => 2,
        }
    }

    /// The byte written in a slider record's number-type field.
    pub fn code(self) -> (r: u8)
        ensures
            r == self.spec_code(),
    {
        match self {
            SliderNumberType::I32 => 0,
            SliderNumberType::F32 => 1,
            SliderNumberType::F64 => 2,
        }
    }
}

/// One slider payload record: 32 bytes on the wire.  The three 64-bit
/// fields hold the bit patterns of the range bounds and current value, in
/// the representation named by `number_type`.
#[derive(Debug, Clone, Copy, PartialEq, Eq, Structural)]
pub struct RawSliderData {
    pub number_type: u8,
    pub range_min: u64,
    pub range_max: u64,
    pub value: u64,
}

/// The fixed record a render call returns: the root element's index and the
/// byte offsets of the five arena tables inside guest memory.
#[derive(Debug, Clone, Copy, PartialEq, Eq, Structural)]
pub struct ViewFuncData {
    pub head_index: u32,
    pub elements_ptr: u32,
    pub children_ptr: u32,
    pub text_data_ptr: u32,
    pub text_style_ptr: u32,
    pub slider_data_ptr: u32,
}

impl ViewFuncData {
    pub fn new() -> (r: Self)
        ensures
            r == (ViewFuncData {
                head_index: 0u32,
                elements_ptr: 0u32,
                children_ptr: 0u32,
                text_data_ptr: 0u32,
                text_style_ptr: 0u32,
                slider_data_ptr: 0u32,
            }),
    {
        ViewFuncData {
            head_index: 0,
            elements_ptr: 0,
            children_ptr: 0,
            text_data_ptr: 0,
            text_style_ptr: 0,
            slider_data_ptr: 0,
        }
    }
}

/// A decoded widget-tree node, the host's in-memory form of one element.
/// Built fresh on every render call and never mutated in place.  Text
/// content is carried as the raw bytes read from guest memory; interpreting
/// them as text is the rendering layer's concern.
#[derive(Debug, PartialEq, Eq)]
pub enum WasmUiNode {
    Row { children: Vec<WasmUiNode> },
    Column { children: Vec<WasmUiNode> },
    Text { content: Vec<u8>, color: u8 },
    Button { inner: Box<WasmUiNode>, callback_id: u32 },
    Slider {
        number_type: SliderNumberType,
        range_min: u64,
        range_max: u64,
        value: u64,
        callback_id: u32,
    },
    Stack { children: Vec<WasmUiNode> },
}

/// The abstract widget tree both codec sides are specified against.
/// A button's `child` sequence always has exactly one element.
pub enum UiTree {
    Row { children: Seq<UiTree> },
    Column { children: Seq<UiTree> },
    Text { content: Seq<u8>, color: u8 },
    Button { child: Seq<UiTree>, callback_id: u32 },
    Slider {
        number_type: SliderNumberType,
        range_min: u64,
        range_max: u64,
        value: u64,
        callback_id: u32,
    },
    Stack { children: Seq<UiTree> },
}

/// The abstract tree a concrete node stands for.
pub open spec fn node_view(n: WasmUiNode) -> UiTree
    decreases n, 1int,
{
    match n {
        WasmUiNode::Row { children } => UiTree::Row { children: nodes_view(children@) },
        WasmUiNode::Column { children } => UiTree::Column { children: nodes_view(children@) },
        WasmUiNode::Text { content, color } => UiTree::Text { content: content@, color },
        WasmUiNode::Button { inner, callback_id } => UiTree::Button {
            child: seq![node_view(*inner)],
            callback_id,
        },
        WasmUiNode::Slider { number_type, range_min, range_max, value, callback_id } =>
            UiTree::Slider { number_type, range_min, range_max, value, callback_id },
        WasmUiNode::Stack { children } => UiTree::Stack { children: nodes_view(children@) },
    }
}

/// The abstract trees a sequence of concrete nodes stands for, in order.
pub open spec fn nodes_view(s: Seq<WasmUiNode>) -> Seq<UiTree>
    decreases s, 0int,
{
    if s.len() == 0 {
        Seq::empty()
    } else {
        seq![node_view(s[0])] + nodes_view(s.skip(1))
    }
}

/// A node sequence's view is as long as the sequence.
pub proof fn lemma_nodes_view_len(s: Seq<WasmUiNode>)
    ensures
        nodes_view(s).len() == s.len(),
    decreases s.len(),
{
    if s.len() > 0 {
        lemma_nodes_view_len(s.skip(1));
    }
}

/// Element `i` of a node sequence's view is the view of node `i`.
pub proof fn lemma_nodes_view_index(s: Seq<WasmUiNode>, i: int)
    requires
        0 <= i < s.len(),
    ensures
        nodes_view(s)[i] == node_view(s[i]),
    decreases i,
{
    lemma_nodes_view_len(s);
    lemma_nodes_view_len(s.skip(1));
    if i > 0 {
        lemma_nodes_view_index(s.skip(1), i - 1);
    }
}

/// The 64-bit wire pattern of an `i32` slider value: the value's two's
/// complement, sign-extended to 64 bits.
pub open spec fn i32_slider_bits(v: int) -> int {
    if v >= 0 {
        v
    } else {
        v + 0x1_0000_0000_0000_0000
    }
}

/// Encodes an `i32` slider value as the 64-bit pattern the wire carries.
pub fn slider_bits_of_i32(v: i32) -> (r: u64)
    ensures
        r == i32_slider_bits(v as int),
{
    if v >= 0 {
        v as u64
    } else {
        let m: u64 = (-(v as i64)) as u64;
        (u64::MAX - m) + 1
    }
}

/// Decodes an `i32` slider value from a 64-bit wire pattern: the low word,
/// read as two's complement — exactly what reaches an integer slider's
/// callback as raw data.
pub fn i32_of_slider_bits(bits: u64) -> (r: i32)
    ensures
        r == crate::surface::i32_of_bits(bits as int % 0x1_0000_0000),
{
    crate::surface::i32_from_u32((bits % 0x1_0000_0000) as u32)
}

/// An `i32` slider value survives the trip onto the wire and back.
pub proof fn lemma_i32_slider_bits_roundtrip(v: i32)
    ensures
        crate::surface::i32_of_bits(i32_slider_bits(v as int) % 0x1_0000_0000) == v,
{
    if v >= 0 {
        vstd::arithmetic::div_mod::lemma_small_mod(v as nat, 0x1_0000_0000);
    } else {
        let b = v + 0x1_0000_0000_0000_0000;
        vstd::arithmetic::div_mod::lemma_mod_multiples_vanish(0xFFFF_FFFF, v + 0x1_0000_0000,
            0x1_0000_0000);
        assert(0x1_0000_0000 * 0xFFFF_FFFF + (v + 0x1_0000_0000) == b);
        vstd::arithmetic::div_mod::lemma_small_mod((v + 0x1_0000_0000) as nat, 0x1_0000_0000);
        assert(b % 0x1_0000_0000 == v + 0x1_0000_0000);
    }
}

/// A UTF-8 continuation byte.
pub open spec fn utf8_cont(b: u8) -> bool {
    0x80 <= b <= 0xBF
}

/// Whether `s` is a well-formed UTF-8 byte sequence: one to four bytes per
/// scalar value, shortest form only, no surrogates, nothing above the last
/// scalar value.  Text payloads must satisfy this to decode; content that
/// does not is a per-render failure, exactly as any other malformed
/// payload.
pub open spec fn utf8_ok(s: Seq<u8>) -> bool
    decreases s.len(),
{
    if s.len() == 0 {
        true
    } else {
        let b0 = s[0];
        if b0 < 0x80 {
            utf8_ok(s.skip(1))
        } else if 0xC2 <= b0 && b0 <= 0xDF {
            s.len() >= 2 && utf8_cont(s[1]) && utf8_ok(s.skip(2))
        } else if b0 == 0xE0 {
            s.len() >= 3 && 0xA0 <= s[1] && s[1] <= 0xBF && utf8_cont(s[2]) && utf8_ok(s.skip(3))
        } else if (0xE1 <= b0 && b0 <= 0xEC) || b0 == 0xEE || b0 == 0xEF {
            s.len() >= 3 && utf8_cont(s[1]) && utf8_cont(s[2]) && utf8_ok(s.skip(3))
        } else if b0 == 0xED {
            s.len() >= 3 && 0x80 <= s[1] && s[1] <= 0x9F && utf8_cont(s[2]) && utf8_ok(s.skip(3))
        } else if b0 == 0xF0 {
            s.len() >= 4 && 0x90 <= s[1] && s[1] <= 0xBF && utf8_cont(s[2]) && utf8_cont(s[3])
                && utf8_ok(s.skip(4))
        } else if 0xF1 <= b0 && b0 <= 0xF3 {
            s.len() >= 4 && utf8_cont(s[1]) && utf8_cont(s[2]) && utf8_cont(s[3]) && utf8_ok(
                s.skip(4),
            )
        } else if b0 == 0xF4 {
            s.len() >= 4 && 0x80 <= s[1] && s[1] <= 0x8F && utf8_cont(s[2]) && utf8_cont(s[3])
                && utf8_ok(s.skip(4))
        } else {
            false
        }
    }
}

/// Checks that `v` is well-formed UTF-8, exactly as [`utf8_ok`] defines it.
#[verifier::rlimit(100)]
#[verifier::loop_isolation(false)]
pub fn check_utf8(v: &Vec<u8>) -> (r: bool)
    ensures
        r == utf8_ok(v@),
{
    let n = v.len();
    let mut i: usize = 0;
    proof {
        assert(v@.skip(0) =~= v@);
    }
    while i < n
        invariant
            i <= n,
            utf8_ok(v@) == utf8_ok(v@.skip(i as int)),
        decreases n - i,
    {
        let ghost rest = v@.skip(i as int);
        proof {
            assert(rest[0] == v@[i as int]);
        }
        let b0 = v[i];
        if b0 < 0x80 {
            proof {
                assert(rest.skip(1) =~= v@.skip(i + 1));
            }
            i = i + 1;
        } else if 0xC2 <= b0 && b0 <= 0xDF {
            if n - i < 2 {
                return false;
            }
            proof {
                assert(rest[1] == v@[i + 1]);
            }
            let b1 = v[i + 1];
            if !(0x80 <= b1 && b1 <= 0xBF) {
                return false;
            }
            proof {
                assert(rest.skip(2) =~= v@.skip(i + 2));
            }
            i = i + 2;
        } else if 0xE0 <= b0 && b0 <= 0xEF {
            if n - i < 3 {
                return false;
            }
            proof {
                assert(rest[1] == v@[i + 1]);
                assert(rest[2] == v@[i + 2]);
            }
            let b1 = v[i + 1];
            let b2 = v[i + 2];
            let lo: u8 = if b0 == 0xE0 {
                0xA0
            } else {
                0x80
            };
            let hi: u8 = if b0 == 0xED {
                0x9F
            } else {
                0xBF
            };
            if !(lo <= b1 && b1 <= hi) {
                return false;
            }
            if !(0x80 <= b2 && b2 <= 0xBF) {
                return false;
            }
            proof {
                assert(rest.skip(3) =~= v@.skip(i + 3));
            }
            i = i + 3;
        } else if 0xF0 <= b0 && b0 <= 0xF4 {
            if n - i < 4 {
                return false;
            }
            proof {
                assert(rest[1] == v@[i + 1]);
                assert(rest[2] == v@[i + 2]);
                assert(rest[3] == v@[i + 3]);
            }
            let b1 = v[i + 1];
            let b2 = v[i + 2];
            let b3 = v[i + 3];
            let lo: u8 = if b0 == 0xF0 {
                0x90
            } else {
                0x80
            };
            let hi: u8 = if b0 == 0xF4 {
                0x8F
            } else {
                0xBF
            };
            if !(lo <= b1 && b1 <= hi) {
                return false;
            }
            if !(0x80 <= b2 && b2 <= 0xBF) {
                return false;
            }
            if !(0x80 <= b3 && b3 <= 0xBF) {
                return false;
            }
            proof {
                assert(rest.skip(4) =~= v@.skip(i + 4));
            }
            i = i + 4;
        } else {
            return false;
        }
    }
    proof {
        assert(v@.skip(n as int) =~= Seq::<u8>::empty());
    }
    true
}

/// Byte offset of fixed-stride record `i` in a table starting at `base`.
pub open spec fn rec_off(base: u32, stride: int, i: int) -> int {
    base + stride * i
}

/// The 20 wire bytes of an element record.
pub open spec fn elem_bytes(e: RawElement) -> Seq<u8> {
    seq![e.tag, e.child_count, 0u8, 0u8] + le32_bytes(e.children_index as int)
        + le32_bytes(e.data_index as int) + le32_bytes(e.callback_index as int)
        + le32_bytes(e.style_index as int)
}

/// The element record read from `m` at byte offset `off`.
pub open spec fn spec_elem_at(m: Seq<u8>, off: int) -> RawElement {
    RawElement {
        tag: m[off],
        child_count: m[off + 1],
        children_index: le32_at(m, off + 4) as u32,
        data_index: le32_at(m, off + 8) as u32,
        callback_index: le32_at(m, off + 12) as u32,
        style_index: le32_at(m, off + 16) as u32,
    }
}

/// The 32 wire bytes of a slider record.
pub open spec fn slider_bytes(s: RawSliderData) -> Seq<u8> {
    seq![s.number_type, 0u8, 0u8, 0u8, 0u8, 0u8, 0u8, 0u8]
        + le64_bytes(s.range_min as int) + le64_bytes(s.range_max as int)
        + le64_bytes(s.value as int)
}

/// The slider record read from `m` at byte offset `off`.
pub open spec fn spec_slider_at(m: Seq<u8>, off: int) -> RawSliderData {
    RawSliderData {
        number_type: m[off],
        range_min: le64_at(m, off + 8) as u64,
        range_max: le64_at(m, off + 16) as u64,
        value: le64_at(m, off + 24) as u64,
    }
}

/// The 8 wire bytes of a text payload record.
pub open spec fn text_rec_bytes(t: RawTextData) -> Seq<u8> {
    le32_bytes(t.content_ptr as int) + le32_bytes(t.content_len as int)
}

/// The text payload record read from `m` at byte offset `off`.
pub open spec fn spec_text_rec_at(m: Seq<u8>, off: int) -> RawTextData {
    RawTextData {
        content_ptr: le32_at(m, off) as u32,
        content_len: le32_at(m, off + 4) as u32,
    }
}

/// An element record written with `elem_bytes` reads back as itself.
pub proof fn lemma_elem_roundtrip(m: Seq<u8>, off: int, e: RawElement)
    requires
        0 <= off,
        off + 20 <= m.len(),
        m.subrange(off, off + 20) == elem_bytes(e),
    ensures
        spec_elem_at(m, off) == e,
{
    assert(m.subrange(off, off + 20)[0] == m[off]);
    assert(m.subrange(off, off + 20)[1] == m[off + 1]);
    assert(m.subrange(off, off + 20)[2] == m[off + 2]);
    assert(m.subrange(off, off + 20)[3] == m[off + 3]);
    assert(m.subrange(off, off + 20)[4] == m[off + 4]);
    assert(m.subrange(off, off + 20)[5] == m[off + 5]);
    assert(m.subrange(off, off + 20)[6] == m[off + 6]);
    assert(m.subrange(off, off + 20)[7] == m[off + 7]);
    assert(m.subrange(off, off + 20)[8] == m[off + 8]);
    assert(m.subrange(off, off + 20)[9] == m[off + 9]);
    assert(m.subrange(off, off + 20)[10] == m[off + 10]);
    assert(m.subrange(off, off + 20)[11] == m[off + 11]);
    assert(m.subrange(off, off + 20)[12] == m[off + 12]);
    assert(m.subrange(off, off + 20)[13] == m[off + 13]);
    assert(m.subrange(off, off + 20)[14] == m[off + 14]);
    assert(m.subrange(off, off + 20)[15] == m[off + 15]);
    assert(m.subrange(off, off + 20)[16] == m[off + 16]);
    assert(m.subrange(off, off + 20)[17] == m[off + 17]);
    assert(m.subrange(off, off + 20)[18] == m[off + 18]);
    assert(m.subrange(off, off + 20)[19] == m[off + 19]);
    assert(m.subrange(off + 4, off + 8) =~= le32_bytes(e.children_index as int));
    lemma_le32_roundtrip(m, off + 4, e.children_index as int);
    assert(m.subrange(off + 8, off + 12) =~= le32_bytes(e.data_index as int));
    lemma_le32_roundtrip(m, off + 8, e.data_index as int);
    assert(m.subrange(off + 12, off + 16) =~= le32_bytes(e.callback_index as int));
    lemma_le32_roundtrip(m, off + 12, e.callback_index as int);
    assert(m.subrange(off + 16, off + 20) =~= le32_bytes(e.style_index as int));
    lemma_le32_roundtrip(m, off + 16, e.style_index as int);
}

/// A slider record written with `slider_bytes` reads back as itself.
#[verifier::rlimit(100)]
pub proof fn lemma_slider_roundtrip(m: Seq<u8>, off: int, s: RawSliderData)
    requires
        0 <= off,
        off + 32 <= m.len(),
        m.subrange(off, off + 32) == slider_bytes(s),
    ensures
        spec_slider_at(m, off) == s,
{
    assert(m.subrange(off, off + 32)[0] == m[off + 0]);
    assert(m.subrange(off, off + 32)[1] == m[off + 1]);
    assert(m.subrange(off, off + 32)[2] == m[off + 2]);
    assert(m.subrange(off, off + 32)[3] == m[off + 3]);
    assert(m.subrange(off, off + 32)[4] == m[off + 4]);
    assert(m.subrange(off, off + 32)[5] == m[off + 5]);
    assert(m.subrange(off, off + 32)[6] == m[off + 6]);
    assert(m.subrange(off, off + 32)[7] == m[off + 7]);
    assert(m.subrange(off, off + 32)[8] == m[off + 8]);
    assert(m.subrange(off, off + 32)[9] == m[off + 9]);
    assert(m.subrange(off, off + 32)[10] == m[off + 10]);
    assert(m.subrange(off, off + 32)[11] == m[off + 11]);
    assert(m.subrange(off, off + 32)[12] == m[off + 12]);
    assert(m.subrange(off, off + 32)[13] == m[off + 13]);
    assert(m.subrange(off, off + 32)[14] == m[off + 14]);
    assert(m.subrange(off, off + 32)[15] == m[off + 15]);
    assert(m.subrange(off, off + 32)[16] == m[off + 16]);
    assert(m.subrange(off, off + 32)[17] == m[off + 17]);
    assert(m.subrange(off, off + 32)[18] == m[off + 18]);
    assert(m.subrange(off, off + 32)[19] == m[off + 19]);
    assert(m.subrange(off, off + 32)[20] == m[off + 20]);
    assert(m.subrange(off, off + 32)[21] == m[off + 21]);
    assert(m.subrange(off, off + 32)[22] == m[off + 22]);
    assert(m.subrange(off, off + 32)[23] == m[off + 23]);
    assert(m.subrange(off, off + 32)[24] == m[off + 24]);
    assert(m.subrange(off, off + 32)[25] == m[off + 25]);
    assert(m.subrange(off, off + 32)[26] == m[off + 26]);
    assert(m.subrange(off, off + 32)[27] == m[off + 27]);
    assert(m.subrange(off, off + 32)[28] == m[off + 28]);
    assert(m.subrange(off, off + 32)[29] == m[off + 29]);
    assert(m.subrange(off, off + 32)[30] == m[off + 30]);
    assert(m.subrange(off, off + 32)[31] == m[off + 31]);
    assert(m[off] == slider_bytes(s)[0]);
    assert(m.subrange(off + 8, off + 16) =~= le64_bytes(s.range_min as int));
    lemma_le64_roundtrip(m, off + 8, s.range_min as int);
    assert(m.subrange(off + 16, off + 24) =~= le64_bytes(s.range_max as int));
    lemma_le64_roundtrip(m, off + 16, s.range_max as int);
    assert(m.subrange(off + 24, off + 32) =~= le64_bytes(s.value as int));
    lemma_le64_roundtrip(m, off + 24, s.value as int);
}

/// A text payload record written with `text_rec_bytes` reads back as itself.
pub proof fn lemma_text_rec_roundtrip(m: Seq<u8>, off: int, t: RawTextData)
    requires
        0 <= off,
        off + 8 <= m.len(),
        m.subrange(off, off + 8) == text_rec_bytes(t),
    ensures
        spec_text_rec_at(m, off) == t,
{
    assert(m.subrange(off, off + 8)[0] == m[off + 0]);
    assert(m.subrange(off, off + 8)[1] == m[off + 1]);
    assert(m.subrange(off, off + 8)[2] == m[off + 2]);
    assert(m.subrange(off, off + 8)[3] == m[off + 3]);
    assert(m.subrange(off, off + 8)[4] == m[off + 4]);
    assert(m.subrange(off, off + 8)[5] == m[off + 5]);
    assert(m.subrange(off, off + 8)[6] == m[off + 6]);
    assert(m.subrange(off, off + 8)[7] == m[off + 7]);
    assert(m.subrange(off, off + 4) =~= le32_bytes(t.content_ptr as int));
    lemma_le32_roundtrip(m, off, t.content_ptr as int);
    assert(m.subrange(off + 4, off + 8) =~= le32_bytes(t.content_len as int));
    lemma_le32_roundtrip(m, off + 4, t.content_len as int);
}

} // verus!
