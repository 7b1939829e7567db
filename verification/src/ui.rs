//! Host-side decoding of a render call's widget-tree arena.
//!
//! After the guest's render entry point returns the offset of a
//! [`ViewFuncData`] record, the host reconstructs the tree by pure index
//! lookup: read the element record at an index, branch on its tag, resolve
//! container children through the children table, and read leaf payloads
//! from their tables.  Every dereference is bounds-checked against the
//! memory buffer; any failure aborts this one decode and is reported to the
//! caller, never escalated.
//!
//! The encoder assigns every child a strictly lower element index than its
//! parent, so the decoder refuses a child index at or above its parent's:
//! a table violating that could only have come from a broken or hostile
//! encoder, and following it could chase a cycle forever.

use vstd::prelude::*;

use crate::WireError;
use crate::arena::{RawElement, SliderNumberType, UiTree, ViewFuncData, WasmUiNode, check_utf8,
    lemma_nodes_view_index, lemma_nodes_view_len, node_view, nodes_view, rec_off, spec_elem_at,
    spec_slider_at, spec_text_rec_at, utf8_ok};
use crate::mem::{le32_at, read_u32_le, read_u64_le, read_u8, read_bytes};

verus! {

/// The children-index list of element record `e`: the pointer-table slot at
/// `e.children_index` names where the element's index array lies, and the
/// array holds `e.child_count` indices.  An element without children has
/// an empty list outright: its `children_index` carries no meaning and is
/// never dereferenced.
pub open spec fn spec_read_kid_ids(m: Seq<u8>, d: ViewFuncData, e: RawElement) -> Result<
    Seq<u32>,
    WireError,
> {
    let poff = rec_off(d.children_ptr, 4, e.children_index as int);
    if e.child_count == 0 {
        Ok(Seq::empty())
    } else if poff + 4 > m.len() {
        Err(WireError::OutOfBounds)
    } else {
        let p = le32_at(m, poff);
        if p + 4 * (e.child_count as int) > m.len() {
            Err(WireError::OutOfBounds)
        } else {
            Ok(Seq::new(e.child_count as nat, |j: int| le32_at(m, p + 4 * j) as u32))
        }
    }
}

/// Decodes the element at index `idx` of the arena described by `d`.
/// Containers recurse into each child; a child index must lie strictly
/// below its parent's.  Fails exactly on: an out-of-bounds record or
/// payload, an unknown element tag or slider number type, text content
/// that is not well-formed UTF-8, a child index at or above its parent, a
/// button without exactly one child.
pub open spec fn spec_decode_node(m: Seq<u8>, d: ViewFuncData, idx: u32) -> Result<
    UiTree,
    WireError,
>
    decreases idx, 256int,
{
    let eoff = rec_off(d.elements_ptr, 20, idx as int);
    if eoff + 20 > m.len() {
        Err(WireError::OutOfBounds)
    } else {
        let e = spec_elem_at(m, eoff);
        if e.tag == 1 || e.tag == 2 || e.tag == 6 {
            let kids = if e.child_count == 0 {
                Ok(Seq::<UiTree>::empty())
            } else {
                match spec_read_kid_ids(m, d, e) {
                    Err(er) => Err(er),
                    Ok(ids) => spec_decode_list(m, d, ids, idx),
                }
            };
            match kids {
                Err(er) => Err(er),
                Ok(cs) => Ok(
                    if e.tag == 1 {
                        UiTree::Row { children: cs }
                    } else if e.tag == 2 {
                        UiTree::Column { children: cs }
                    } else {
                        UiTree::Stack { children: cs }
                    },
                ),
            }
        } else if e.tag == 3 {
            let toff = rec_off(d.text_data_ptr, 8, e.data_index as int);
            if toff + 8 > m.len() {
                Err(WireError::OutOfBounds)
            } else {
                let tr = spec_text_rec_at(m, toff);
                if tr.content_ptr + tr.content_len > m.len() {
                    Err(WireError::OutOfBounds)
                } else {
                    let content = m.subrange(
                        tr.content_ptr as int,
                        tr.content_ptr + tr.content_len,
                    );
                    if !utf8_ok(content) {
                        Err(WireError::InvalidTextEncoding)
                    } else if e.style_index == 0 {
                        Ok(UiTree::Text { content, color: 0 })
                    } else {
                        let soff = rec_off(d.text_style_ptr, 1, e.style_index - 1);
                        if soff + 1 > m.len() {
                            Err(WireError::OutOfBounds)
                        } else {
                            Ok(UiTree::Text { content, color: m[soff] })
                        }
                    }
                }
            }
        } else if e.tag == 4 {
            if e.child_count != 1 {
                Err(WireError::BadChildCount)
            } else {
                match spec_read_kid_ids(m, d, e) {
                    Err(er) => Err(er),
                    Ok(ids) => match spec_decode_list(m, d, ids, idx) {
                        Err(er) => Err(er),
                        Ok(cs) => Ok(UiTree::Button { child: cs, callback_id: e.callback_index }),
                    },
                }
            }
        } else if e.tag == 5 {
            let soff = rec_off(d.slider_data_ptr, 32, e.data_index as int);
            if soff + 32 > m.len() {
                Err(WireError::OutOfBounds)
            } else {
                let sr = spec_slider_at(m, soff);
                if sr.number_type == 0 {
                    Ok(UiTree::Slider {
                        number_type: SliderNumberType::I32,
                        range_min: sr.range_min,
                        range_max: sr.range_max,
                        value: sr.value,
                        callback_id: e.callback_index,
                    })
                } else if sr.number_type == 1 {
                    Ok(UiTree::Slider {
                        number_type: SliderNumberType::F32,
                        range_min: sr.range_min,
                        range_max: sr.range_max,
                        value: sr.value,
                        callback_id: e.callback_index,
                    })
                } else if sr.number_type == 2 {
                    Ok(UiTree::Slider {
                        number_type: SliderNumberType::F64,
                        range_min: sr.range_min,
                        range_max: sr.range_max,
                        value: sr.value,
                        callback_id: e.callback_index,
                    })
                } else {
                    Err(WireError::UnknownSliderType(sr.number_type))
                }
            }
        } else {
            Err(WireError::UnknownElementTag(e.tag))
        }
    }
}

/// Decodes the elements named by `ids` in order, each index checked to lie
/// strictly below `bound`; the first failure wins.
pub open spec fn spec_decode_list(m: Seq<u8>, d: ViewFuncData, ids: Seq<u32>, bound: u32) -> Result<
    Seq<UiTree>,
    WireError,
>
    decreases bound, ids.len(),
{
    if ids.len() == 0 {
        Ok(Seq::empty())
    } else if ids[0] >= bound {
        Err(WireError::MalformedChildIndex)
    } else {
        match spec_decode_node(m, d, ids[0]) {
            Err(er) => Err(er),
            Ok(t) => match spec_decode_list(m, d, ids.skip(1), bound) {
                Err(er) => Err(er),
                Ok(ts) => Ok(seq![t] + ts),
            },
        }
    }
}

/// If every index in `ids` lies below `bound` and decodes to the matching
/// element of `ts`, the list decodes to `ts`.
#[verifier::rlimit(100)]
pub proof fn lemma_decode_list_all_ok(
    m: Seq<u8>,
    d: ViewFuncData,
    ids: Seq<u32>,
    bound: u32,
    ts: Seq<UiTree>,
)
    requires
        ts.len() == ids.len(),
        forall|k: int|
            0 <= k < ids.len() ==> ids[k] < bound && #[trigger] spec_decode_node(m, d, ids[k])
                == Ok::<UiTree, WireError>(ts[k]),
    ensures
        spec_decode_list(m, d, ids, bound) == Ok::<Seq<UiTree>, WireError>(ts),
    decreases ids.len(),
{
    if ids.len() == 0 {
        assert(ts =~= Seq::<UiTree>::empty());
    } else {
        lemma_decode_list_all_ok(m, d, ids.skip(1), bound, ts.skip(1));
        assert(spec_decode_node(m, d, ids[0]) == Ok::<UiTree, WireError>(ts[0]));
        assert(seq![ts[0]] + ts.skip(1) =~= ts);
    }
}

/// If the indices before position `j` all decode and `j` fails — by lying
/// at or above `bound`, or by failing to decode — the list fails the same
/// way.
#[verifier::rlimit(100)]
pub proof fn lemma_decode_list_err_at(
    m: Seq<u8>,
    d: ViewFuncData,
    ids: Seq<u32>,
    bound: u32,
    j: int,
    e: WireError,
)
    requires
        0 <= j < ids.len(),
        forall|k: int|
            0 <= k < j ==> ids[k] < bound && (#[trigger] spec_decode_node(m, d, ids[k])) is Ok,
        if ids[j] >= bound {
            e == WireError::MalformedChildIndex
        } else {
            spec_decode_node(m, d, ids[j]) == Err::<UiTree, WireError>(e)
        },
    ensures
        spec_decode_list(m, d, ids, bound) == Err::<Seq<UiTree>, WireError>(e),
    decreases j,
{
    if j > 0 {
        lemma_decode_list_err_at(m, d, ids.skip(1), bound, j - 1, e);
        assert(spec_decode_node(m, d, ids[0]) is Ok);
    }
}

/// Reads the element record at index `index` of the element table, exactly
/// as the specification decoder sees it.
#[verifier::rlimit(100)]
pub fn get_raw_element(memory: &Vec<u8>, data: &ViewFuncData, index: u32) -> (r: Result<
    RawElement,
    WireError,
>)
    ensures
        match r {
            Ok(e) => rec_off(data.elements_ptr, 20, index as int) + 20 <= memory@.len() && e
                == spec_elem_at(memory@, rec_off(data.elements_ptr, 20, index as int)),
            Err(e) => e == WireError::OutOfBounds && rec_off(data.elements_ptr, 20, index as int)
                + 20 > memory@.len(),
        },
{
    let eoff64: u64 = data.elements_ptr as u64 + 20u64 * (index as u64);
    if eoff64 + 20 > memory.len() as u64 {
        return Err(WireError::OutOfBounds);
    }
    let eoff: usize = eoff64 as usize;
    let tag = match read_u8(memory, eoff) {
        Ok(v) => v,
        Err(_) => {
            assert(false);
            return Err(WireError::OutOfBounds);
        }
    };
    let child_count = match read_u8(memory, eoff + 1) {
        Ok(v) => v,
        Err(_) => {
            assert(false);
            return Err(WireError::OutOfBounds);
        }
    };
    let children_index = match read_u32_le(memory, eoff + 4) {
        Ok(v) => v,
        Err(_) => {
            assert(false);
            return Err(WireError::OutOfBounds);
        }
    };
    let data_index = match read_u32_le(memory, eoff + 8) {
        Ok(v) => v,
        Err(_) => {
            assert(false);
            return Err(WireError::OutOfBounds);
        }
    };
    let callback_index = match read_u32_le(memory, eoff + 12) {
        Ok(v) => v,
        Err(_) => {
            assert(false);
            return Err(WireError::OutOfBounds);
        }
    };
    let style_index = match read_u32_le(memory, eoff + 16) {
        Ok(v) => v,
        Err(_) => {
            assert(false);
            return Err(WireError::OutOfBounds);
        }
    };
    Ok(RawElement { tag, child_count, children_index, data_index, callback_index, style_index })
}

/// Reads an element's children-index list, exactly as the specification
/// decoder sees it.
#[verifier::loop_isolation(false)]
#[verifier::rlimit(100)]
pub fn get_element_children(memory: &Vec<u8>, data: &ViewFuncData, element: &RawElement) -> (r:
    Result<Vec<u32>, WireError>)
    ensures
        match r {
            Ok(ids) => spec_read_kid_ids(memory@, *data, *element) == Ok::<Seq<u32>, WireError>(
                ids@,
            ),
            Err(e) => spec_read_kid_ids(memory@, *data, *element) == Err::<Seq<u32>, WireError>(e),
        },
{
    if element.child_count == 0 {
        return Ok(Vec::new());
    }
    let poff64: u64 = data.children_ptr as u64 + 4u64 * (element.children_index as u64);
    if poff64 + 4 > memory.len() as u64 {
        return Err(WireError::OutOfBounds);
    }
    let p = match read_u32_le(memory, poff64 as usize) {
        Ok(v) => v,
        Err(_) => {
            assert(false);
            return Err(WireError::OutOfBounds);
        }
    };
    let count = element.child_count as usize;
    if p as u64 + 4u64 * (count as u64) > memory.len() as u64 {
        return Err(WireError::OutOfBounds);
    }
    let mut ids: Vec<u32> = Vec::new();
    let mut j: usize = 0;
    while j < count
        invariant
            j <= count,
            count == element.child_count,
            p + 4 * count <= memory@.len(),
            ids@.len() == j,
            forall|k: int| 0 <= k < j ==> ids@[k] == le32_at(memory@, p + 4 * k) as u32,
        decreases count - j,
    {
        let v = match read_u32_le(memory, p as usize + 4 * j) {
            Ok(v) => v,
            Err(_) => {
                assert(false);
                return Err(WireError::OutOfBounds);
            }
        };
        ids.push(v);
        j = j + 1;
    }
    proof {
        let spec_ids = Seq::new(element.child_count as nat, |k: int|
            le32_at(memory@, le32_at(memory@, rec_off(data.children_ptr, 4,
                element.children_index as int)) + 4 * k) as u32);
        assert(ids@ =~= spec_ids);
    }
    Ok(ids)
}

/// Reconstructs the tree rooted at element index `idx`, returning exactly
/// what the specification decoder describes: the decoded tree, or the
/// first failure met along the walk.
#[verifier::rlimit(100)]
pub fn build_tree(memory: &Vec<u8>, data: &ViewFuncData, idx: u32) -> (r: Result<
    WasmUiNode,
    WireError,
>)
    ensures
        match r {
            Ok(n) => spec_decode_node(memory@, *data, idx) == Ok::<UiTree, WireError>(node_view(n)),
            Err(e) => spec_decode_node(memory@, *data, idx) == Err::<UiTree, WireError>(e),
        },
    decreases idx,
{
    let e = match get_raw_element(memory, data, idx) {
        Ok(e) => e,
        Err(er) => {
            return Err(er);
        }
    };
    if e.tag == 1 || e.tag == 2 || e.tag == 6 {
        let mut children: Vec<WasmUiNode> = Vec::new();
        if e.child_count > 0 {
            let ids = match get_element_children(memory, data, &e) {
                Ok(ids) => ids,
                Err(er) => {
                    return Err(er);
                }
            };
            let ghost ids_spec = ids@;
            let mut j: usize = 0;
            while j < ids.len()
                invariant
                    j <= ids@.len(),
                    ids@ == ids_spec,
                    rec_off(data.elements_ptr, 20, idx as int) + 20 <= memory@.len(),
                    e == spec_elem_at(memory@, rec_off(data.elements_ptr, 20, idx as int)),
                    e.tag == 1 || e.tag == 2 || e.tag == 6,
                    e.child_count > 0,
                    ids_spec.len() == e.child_count,
                    spec_read_kid_ids(memory@, *data, e) == Ok::<Seq<u32>, WireError>(ids_spec),
                    children@.len() == j,
                    forall|k: int|
                        0 <= k < j ==> ids_spec[k] < idx && #[trigger] spec_decode_node(
                            memory@,
                            *data,
                            ids_spec[k],
                        ) == Ok::<UiTree, WireError>(node_view(children@[k])),
                decreases ids@.len() - j,
            {
                let ci = ids[j];
                if ci >= idx {
                    proof {
                        lemma_decode_list_err_at(memory@, *data, ids_spec, idx, j as int,
                            WireError::MalformedChildIndex);
                    }
                    return Err(WireError::MalformedChildIndex);
                }
                let child = match build_tree(memory, data, ci) {
                    Ok(c) => c,
                    Err(er) => {
                        proof {
                            lemma_decode_list_err_at(memory@, *data, ids_spec, idx, j as int, er);
                        }
                        return Err(er);
                    }
                };
                children.push(child);
                j = j + 1;
            }
            proof {
                lemma_nodes_view_len(children@);
                assert forall|k: int| 0 <= k < ids_spec.len() implies ids_spec[k] < idx
                    && #[trigger] spec_decode_node(memory@, *data, ids_spec[k])
                        == Ok::<UiTree, WireError>(nodes_view(children@)[k]) by {
                    lemma_nodes_view_index(children@, k);
                }
                lemma_decode_list_all_ok(memory@, *data, ids_spec, idx, nodes_view(children@));
            }
        }
        if e.tag == 1 {
            Ok(WasmUiNode::Row { children })
        } else if e.tag == 2 {
            Ok(WasmUiNode::Column { children })
        } else {
            Ok(WasmUiNode::Stack { children })
        }
    } else if e.tag == 3 {
        let toff64: u64 = data.text_data_ptr as u64 + 8u64 * (e.data_index as u64);
        if toff64 + 8 > memory.len() as u64 {
            return Err(WireError::OutOfBounds);
        }
        let toff: usize = toff64 as usize;
        let content_ptr = match read_u32_le(memory, toff) {
            Ok(v) => v,
            Err(_) => {
                assert(false);
                return Err(WireError::OutOfBounds);
            }
        };
        let content_len = match read_u32_le(memory, toff + 4) {
            Ok(v) => v,
            Err(_) => {
                assert(false);
                return Err(WireError::OutOfBounds);
            }
        };
        if content_ptr as u64 + content_len as u64 > memory.len() as u64 {
            return Err(WireError::OutOfBounds);
        }
        let content = match read_bytes(memory, content_ptr as usize, content_len as usize) {
            Ok(b) => b,
            Err(_) => {
                assert(false);
                return Err(WireError::OutOfBounds);
            }
        };
        if !check_utf8(&content) {
            return Err(WireError::InvalidTextEncoding);
        }
        if e.style_index == 0 {
            Ok(WasmUiNode::Text { content, color: 0 })
        } else {
            let soff64: u64 = data.text_style_ptr as u64 + (e.style_index as u64 - 1);
            if soff64 + 1 > memory.len() as u64 {
                return Err(WireError::OutOfBounds);
            }
            let color = match read_u8(memory, soff64 as usize) {
                Ok(v) => v,
                Err(_) => {
                    assert(false);
                    return Err(WireError::OutOfBounds);
                }
            };
            Ok(WasmUiNode::Text { content, color })
        }
    } else if e.tag == 4 {
        if e.child_count != 1 {
            return Err(WireError::BadChildCount);
        }
        let ids = match get_element_children(memory, data, &e) {
            Ok(ids) => ids,
            Err(er) => {
                return Err(er);
            }
        };
        let ci = ids[0];
        if ci >= idx {
            proof {
                lemma_decode_list_err_at(memory@, *data, ids@, idx, 0,
                    WireError::MalformedChildIndex);
            }
            return Err(WireError::MalformedChildIndex);
        }
        let inner = match build_tree(memory, data, ci) {
            Ok(c) => c,
            Err(er) => {
                proof {
                    lemma_decode_list_err_at(memory@, *data, ids@, idx, 0, er);
                }
                return Err(er);
            }
        };
        proof {
            lemma_decode_list_all_ok(memory@, *data, ids@.skip(1), idx, Seq::<UiTree>::empty());
            assert(seq![node_view(inner)] + Seq::<UiTree>::empty() =~= seq![node_view(inner)]);
        }
        Ok(WasmUiNode::Button { inner: Box::new(inner), callback_id: e.callback_index })
    } else if e.tag == 5 {
        let soff64: u64 = data.slider_data_ptr as u64 + 32u64 * (e.data_index as u64);
        if soff64 + 32 > memory.len() as u64 {
            return Err(WireError::OutOfBounds);
        }
        let soff: usize = soff64 as usize;
        let nt = match read_u8(memory, soff) {
            Ok(v) => v,
            Err(_) => {
                assert(false);
                return Err(WireError::OutOfBounds);
            }
        };
        let range_min = match read_u64_le(memory, soff + 8) {
            Ok(v) => v,
            Err(_) => {
                assert(false);
                return Err(WireError::OutOfBounds);
            }
        };
        let range_max = match read_u64_le(memory, soff + 16) {
            Ok(v) => v,
            Err(_) => {
                assert(false);
                return Err(WireError::OutOfBounds);
            }
        };
        let value = match read_u64_le(memory, soff + 24) {
            Ok(v) => v,
            Err(_) => {
                assert(false);
                return Err(WireError::OutOfBounds);
            }
        };
        let number_type = if nt == 0 {
            SliderNumberType::I32
        } else if nt == 1 {
            SliderNumberType::F32
        } else if nt == 2 {
            SliderNumberType::F64
        } else {
            return Err(WireError::UnknownSliderType(nt));
        };
        Ok(WasmUiNode::Slider {
            number_type,
            range_min,
            range_max,
            value,
            callback_id: e.callback_index,
        })
    } else {
        Err(WireError::UnknownElementTag(e.tag))
    }
}

/// Reads the [`ViewFuncData`] record a render call returned at `offset`,
/// then reconstructs the tree it names.  This is the host's whole per-render
/// decode step; a failure is reported per render call, the module stays.
#[verifier::rlimit(100)]
pub fn get_element_tree(memory: &Vec<u8>, offset: u32) -> (r: Result<
    (WasmUiNode, ViewFuncData),
    WireError,
>)
    ensures
        match r {
            Ok((n, d)) => offset + 24 <= memory@.len() && d == spec_vfd_at(memory@, offset as int)
                && spec_decode_node(memory@, d, d.head_index) == Ok::<UiTree, WireError>(
                node_view(n),
            ),
            Err(e) => offset + 24 > memory@.len() && e == WireError::OutOfBounds || offset + 24
                <= memory@.len() && spec_decode_node(
                memory@,
                spec_vfd_at(memory@, offset as int),
                spec_vfd_at(memory@, offset as int).head_index,
            ) == Err::<UiTree, WireError>(e),
        },
{
    if offset as u64 + 24 > memory.len() as u64 {
        return Err(WireError::OutOfBounds);
    }
    let off = offset as usize;
    let head_index = match read_u32_le(memory, off) {
        Ok(v) => v,
        Err(_) => {
            assert(false);
            return Err(WireError::OutOfBounds);
        }
    };
    let elements_ptr = match read_u32_le(memory, off + 4) {
        Ok(v) => v,
        Err(_) => {
            assert(false);
            return Err(WireError::OutOfBounds);
        }
    };
    let children_ptr = match read_u32_le(memory, off + 8) {
        Ok(v) => v,
        Err(_) => {
            assert(false);
            return Err(WireError::OutOfBounds);
        }
    };
    let text_data_ptr = match read_u32_le(memory, off + 12) {
        Ok(v) => v,
        Err(_) => {
            assert(false);
            return Err(WireError::OutOfBounds);
        }
    };
    let text_style_ptr = match read_u32_le(memory, off + 16) {
        Ok(v) => v,
        Err(_) => {
            assert(false);
            return Err(WireError::OutOfBounds);
        }
    };
    let slider_data_ptr = match read_u32_le(memory, off + 20) {
        Ok(v) => v,
        Err(_) => {
            assert(false);
            return Err(WireError::OutOfBounds);
        }
    };
    let d = ViewFuncData {
        head_index,
        elements_ptr,
        children_ptr,
        text_data_ptr,
        text_style_ptr,
        slider_data_ptr,
    };
    match build_tree(memory, &d, d.head_index) {
        Ok(n) => Ok((n, d)),
        Err(e) => Err(e),
    }
}

/// The [`ViewFuncData`] record read from `m` at byte offset `off`.
pub open spec fn spec_vfd_at(m: Seq<u8>, off: int) -> ViewFuncData {
    ViewFuncData {
        head_index: le32_at(m, off) as u32,
        elements_ptr: le32_at(m, off + 4) as u32,
        children_ptr: le32_at(m, off + 8) as u32,
        text_data_ptr: le32_at(m, off + 12) as u32,
        text_style_ptr: le32_at(m, off + 16) as u32,
        slider_data_ptr: le32_at(m, off + 20) as u32,
    }
}

} // verus!
