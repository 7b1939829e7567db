//! Guest-side encoding of a widget tree into arena form.
//!
//! The encoder is the mirror of the host decoder in [`crate::ui`]: one
//! depth-first traversal appends every node's payload to the matching flat
//! table and returns the node's new element index.  A container commits its
//! children's indices before appending itself, so every child ends up at a
//! strictly lower element index than its parent and the decoder can walk
//! the tables by pure index lookup, never needing a forward reference.
//! [`serialize_arena`] then lays the finished tables out as one byte blob
//! in the wire layout the decoder reads.

use vstd::prelude::*;

use crate::WireError;
use crate::arena::{RawElement, RawSliderData, RawStyle, UiTree, ViewFuncData, WasmUiNode,
    elem_bytes, lemma_elem_roundtrip, lemma_nodes_view_index, lemma_nodes_view_len,
    lemma_slider_roundtrip, lemma_text_rec_roundtrip, node_view, nodes_view, rec_off,
    slider_bytes, spec_elem_at, spec_slider_at, spec_text_rec_at, text_rec_bytes};
use crate::mem::{concat_all, le32_at, le32_bytes, lens_sum, lemma_subrange_of_subrange};

verus! {

/// The flat tables a render call's widget tree is flattened into.  Rebuilt
/// from scratch on every render; every index stored in an element record
/// addresses one of these tables.
#[derive(Debug)]
pub struct ElementsMemoryArena {
    pub elements: Vec<RawElement>,
    pub children: Vec<Vec<u32>>,
    pub text_strings: Vec<Vec<u8>>,
    pub text_style: Vec<RawStyle>,
    pub slider_data: Vec<RawSliderData>,
}

impl ElementsMemoryArena {
    pub fn new() -> (r: Self)
        ensures
            r.elements@.len() == 0,
            r.children@.len() == 0,
            r.text_strings@.len() == 0,
            r.text_style@.len() == 0,
            r.slider_data@.len() == 0,
    {
        ElementsMemoryArena {
            elements: Vec::new(),
            children: Vec::new(),
            text_strings: Vec::new(),
            text_style: Vec::new(),
            slider_data: Vec::new(),
        }
    }
}

/// The element at index `idx` of arena `a` describes exactly the tree `t`:
/// right tag, right payload, and each child described at a strictly lower
/// index.  This is the invariant the encoder establishes and the decoder's
/// round trip consumes.
pub open spec fn arena_rep(a: ElementsMemoryArena, idx: u32, t: UiTree) -> bool
    decreases t, 2int,
{
    idx < a.elements@.len() && {
        let e = a.elements@[idx as int];
        match t {
            UiTree::Row { children } => e.tag == 1 && container_rep(a, e, idx, children),
            UiTree::Column { children } => e.tag == 2 && container_rep(a, e, idx, children),
            UiTree::Stack { children } => e.tag == 6 && container_rep(a, e, idx, children),
            UiTree::Text { content, color } => e.tag == 3 && e.data_index
                < a.text_strings@.len() && a.text_strings@[e.data_index as int]@ == content
                && crate::arena::utf8_ok(content) && (if color == 0 {
                    e.style_index == 0
                } else {
                    1 <= e.style_index <= a.text_style@.len() && a.text_style@[e.style_index
                        - 1].text_color == color
                }),
            UiTree::Button { child, callback_id } => e.tag == 4 && e.child_count == 1
                && child.len() == 1 && e.callback_index == callback_id && e.children_index
                < a.children@.len() && a.children@[e.children_index as int]@.len() == 1
                && kids_rep(a, a.children@[e.children_index as int]@, idx, child),
            UiTree::Slider { number_type, range_min, range_max, value, callback_id } => e.tag == 5
                && e.callback_index == callback_id && e.data_index < a.slider_data@.len()
                && a.slider_data@[e.data_index as int] == (RawSliderData {
                number_type: number_type.spec_code(),
                range_min,
                range_max,
                value,
            }),
        }
    }
}

/// A container element's tie to its children: count matches, and a
/// non-empty child list is committed in the children table.
pub open spec fn container_rep(
    a: ElementsMemoryArena,
    e: RawElement,
    idx: u32,
    children: Seq<UiTree>,
) -> bool
    decreases children, 1int,
{
    e.child_count == children.len() && children.len() <= 255 && (children.len() == 0
        || (e.children_index < a.children@.len() && a.children@[e.children_index as int]@.len()
            == children.len() && kids_rep(a, a.children@[e.children_index as int]@, idx, children)))
}

/// Indices `ids` describe the trees `children` pairwise, each index lying
/// strictly below `bound`.
pub open spec fn kids_rep(
    a: ElementsMemoryArena,
    ids: Seq<u32>,
    bound: u32,
    children: Seq<UiTree>,
) -> bool
    decreases children, 0int,
{
    ids.len() == children.len() && (children.len() == 0 || (ids[0] < bound && arena_rep(
        a,
        ids[0],
        children[0],
    ) && kids_rep(a, ids.skip(1), bound, children.skip(1))))
}

/// `b` extends `a`: every table of `a` is a prefix of the same table of `b`.
/// Pushing nodes only appends, so everything already described stays put.
pub open spec fn arena_extends(a: ElementsMemoryArena, b: ElementsMemoryArena) -> bool {
    &&& a.elements@.len() <= b.elements@.len()
    &&& forall|i: int| 0 <= i < a.elements@.len() ==> #[trigger] b.elements@[i] == a.elements@[i]
    &&& a.children@.len() <= b.children@.len()
    &&& forall|i: int| 0 <= i < a.children@.len() ==> #[trigger] b.children@[i] == a.children@[i]
    &&& a.text_strings@.len() <= b.text_strings@.len()
    &&& forall|i: int|
        0 <= i < a.text_strings@.len() ==> #[trigger] b.text_strings@[i] == a.text_strings@[i]
    &&& a.text_style@.len() <= b.text_style@.len()
    &&& forall|i: int|
        0 <= i < a.text_style@.len() ==> #[trigger] b.text_style@[i] == a.text_style@[i]
    &&& a.slider_data@.len() <= b.slider_data@.len()
    &&& forall|i: int|
        0 <= i < a.slider_data@.len() ==> #[trigger] b.slider_data@[i] == a.slider_data@[i]
}

/// What an arena describes, it still describes after growing.
#[verifier::rlimit(100)]
pub proof fn lemma_arena_rep_extends(a: ElementsMemoryArena, b: ElementsMemoryArena, idx: u32, t: UiTree)
    requires
        arena_extends(a, b),
        arena_rep(a, idx, t),
    ensures
        arena_rep(b, idx, t),
    decreases t, 2int,
{
    let e = a.elements@[idx as int];
    assert(b.elements@[idx as int] == e);
    match t {
        UiTree::Row { children } => {
            if children.len() > 0 {
                assert(b.children@[e.children_index as int] == a.children@[e.children_index as int]);
                lemma_kids_rep_extends(a, b, a.children@[e.children_index as int]@, idx, children);
            }
        }
        UiTree::Column { children } => {
            if children.len() > 0 {
                assert(b.children@[e.children_index as int] == a.children@[e.children_index as int]);
                lemma_kids_rep_extends(a, b, a.children@[e.children_index as int]@, idx, children);
            }
        }
        UiTree::Stack { children } => {
            if children.len() > 0 {
                assert(b.children@[e.children_index as int] == a.children@[e.children_index as int]);
                lemma_kids_rep_extends(a, b, a.children@[e.children_index as int]@, idx, children);
            }
        }
        UiTree::Text { content, color } => {
            assert(b.text_strings@[e.data_index as int] == a.text_strings@[e.data_index as int]);
            if color != 0 {
                assert(b.text_style@[e.style_index - 1] == a.text_style@[e.style_index - 1]);
            }
        }
        UiTree::Button { child, callback_id } => {
            assert(b.children@[e.children_index as int] == a.children@[e.children_index as int]);
            lemma_kids_rep_extends(a, b, a.children@[e.children_index as int]@, idx, child);
        }
        UiTree::Slider { .. } => {
            assert(b.slider_data@[e.data_index as int] == a.slider_data@[e.data_index as int]);
        }
    }
}

/// What a child list describes, it still describes after the arena grows.
#[verifier::rlimit(100)]
pub proof fn lemma_kids_rep_extends(
    a: ElementsMemoryArena,
    b: ElementsMemoryArena,
    ids: Seq<u32>,
    bound: u32,
    children: Seq<UiTree>,
)
    requires
        arena_extends(a, b),
        kids_rep(a, ids, bound, children),
    ensures
        kids_rep(b, ids, bound, children),
    decreases children, 0int,
{
    if children.len() > 0 {
        lemma_arena_rep_extends(a, b, ids[0], children[0]);
        lemma_kids_rep_extends(a, b, ids.skip(1), bound, children.skip(1));
    }
}

/// What one flattened tree adds to each arena table: element records,
/// committed children arrays, total committed child indices, text
/// payloads, style records, slider records, and text content bytes.
pub struct ArenaFootprint {
    pub elems: int,
    pub arrays: int,
    pub kids: int,
    pub texts: int,
    pub styles: int,
    pub sliders: int,
    pub text_bytes: int,
}

/// The empty footprint.
pub open spec fn fp_zero() -> ArenaFootprint {
    ArenaFootprint { elems: 0, arrays: 0, kids: 0, texts: 0, styles: 0, sliders: 0, text_bytes: 0 }
}

/// Footprints add fieldwise.
pub open spec fn fp_add(x: ArenaFootprint, y: ArenaFootprint) -> ArenaFootprint {
    ArenaFootprint {
        elems: x.elems + y.elems,
        arrays: x.arrays + y.arrays,
        kids: x.kids + y.kids,
        texts: x.texts + y.texts,
        styles: x.styles + y.styles,
        sliders: x.sliders + y.sliders,
        text_bytes: x.text_bytes + y.text_bytes,
    }
}

/// The footprint of a container element itself: one element record, and
/// one children array of `n` indices when there are children at all.
pub open spec fn container_fp(n: int) -> ArenaFootprint {
    ArenaFootprint {
        elems: 1,
        arrays: if n > 0 {
            1
        } else {
            0
        },
        kids: n,
        texts: 0,
        styles: 0,
        sliders: 0,
        text_bytes: 0,
    }
}

/// What flattening the tree `t` adds to the arena.
pub open spec fn tree_footprint(t: UiTree) -> ArenaFootprint
    decreases t, 1int,
{
    match t {
        UiTree::Row { children } => fp_add(
            list_footprint(children),
            container_fp(children.len() as int),
        ),
        UiTree::Column { children } => fp_add(
            list_footprint(children),
            container_fp(children.len() as int),
        ),
        UiTree::Stack { children } => fp_add(
            list_footprint(children),
            container_fp(children.len() as int),
        ),
        UiTree::Text { content, color } => ArenaFootprint {
            elems: 1,
            arrays: 0,
            kids: 0,
            texts: 1,
            styles: if color == 0 {
                0
            } else {
                1
            },
            sliders: 0,
            text_bytes: content.len() as int,
        },
        UiTree::Button { child, .. } => fp_add(
            list_footprint(child),
            ArenaFootprint {
                elems: 1,
                arrays: 1,
                kids: 1,
                texts: 0,
                styles: 0,
                sliders: 0,
                text_bytes: 0,
            },
        ),
        UiTree::Slider { .. } => ArenaFootprint {
            elems: 1,
            arrays: 0,
            kids: 0,
            texts: 0,
            styles: 0,
            sliders: 1,
            text_bytes: 0,
        },
    }
}

/// What flattening every tree of `ts` adds, summed in order.
pub open spec fn list_footprint(ts: Seq<UiTree>) -> ArenaFootprint
    decreases ts, 0int,
{
    if ts.len() == 0 {
        fp_zero()
    } else {
        fp_add(tree_footprint(ts[0]), list_footprint(ts.skip(1)))
    }
}

/// Every container of the tree has at most 255 children, the wire limit
/// of the child-count byte.
pub open spec fn tree_arity_ok(t: UiTree) -> bool
    decreases t, 1int,
{
    match t {
        UiTree::Row { children } => children.len() <= 255 && list_arity_ok(children),
        UiTree::Column { children } => children.len() <= 255 && list_arity_ok(children),
        UiTree::Stack { children } => children.len() <= 255 && list_arity_ok(children),
        UiTree::Button { child, .. } => list_arity_ok(child),
        _ => true,
    }
}

/// Arity of every tree in the list.
pub open spec fn list_arity_ok(ts: Seq<UiTree>) -> bool
    decreases ts, 0int,
{
    ts.len() == 0 || (tree_arity_ok(ts[0]) && list_arity_ok(ts.skip(1)))
}

/// Every text leaf of the tree carries well-formed UTF-8.
pub open spec fn tree_text_ok(t: UiTree) -> bool
    decreases t, 1int,
{
    match t {
        UiTree::Row { children } => list_text_ok(children),
        UiTree::Column { children } => list_text_ok(children),
        UiTree::Stack { children } => list_text_ok(children),
        UiTree::Button { child, .. } => list_text_ok(child),
        UiTree::Text { content, .. } => crate::arena::utf8_ok(content),
        UiTree::Slider { .. } => true,
    }
}

/// Text validity of every tree in the list.
pub open spec fn list_text_ok(ts: Seq<UiTree>) -> bool
    decreases ts, 0int,
{
    ts.len() == 0 || (tree_text_ok(ts[0]) && list_text_ok(ts.skip(1)))
}

/// Every table of `a` stays within the 32-bit index space after adding
/// the footprint `fp`.
pub open spec fn arena_fits(a: ElementsMemoryArena, fp: ArenaFootprint) -> bool {
    &&& a.elements@.len() + fp.elems <= u32::MAX
    &&& a.children@.len() + fp.arrays <= u32::MAX
    &&& a.text_strings@.len() + fp.texts <= u32::MAX
    &&& a.text_style@.len() + fp.styles <= u32::MAX
    &&& a.slider_data@.len() + fp.sliders <= u32::MAX
}

/// `b` is `a` grown by exactly the footprint `fp`: every table and both
/// variable-length totals moved by the footprint's amount.
pub open spec fn arena_grown(a: ElementsMemoryArena, b: ElementsMemoryArena, fp: ArenaFootprint) -> bool {
    &&& b.elements@.len() == a.elements@.len() + fp.elems
    &&& b.children@.len() == a.children@.len() + fp.arrays
    &&& b.text_strings@.len() == a.text_strings@.len() + fp.texts
    &&& b.text_style@.len() == a.text_style@.len() + fp.styles
    &&& b.slider_data@.len() == a.slider_data@.len() + fp.sliders
    &&& kid_total(b.children@) == kid_total(a.children@) + fp.kids
    &&& text_total(b.text_strings@) == text_total(a.text_strings@) + fp.text_bytes
}

/// The length of the serialized blob a tree alone produces.
pub open spec fn tree_blob_len(t: UiTree) -> int {
    let fp = tree_footprint(t);
    20 * fp.elems + 4 * fp.arrays + 8 * fp.texts + fp.styles + 32 * fp.sliders + 4 * fp.kids
        + fp.text_bytes
}

/// No footprint field is ever negative.
pub proof fn lemma_tree_fp_nonneg(t: UiTree)
    ensures
        tree_footprint(t).elems >= 0,
        tree_footprint(t).arrays >= 0,
        tree_footprint(t).kids >= 0,
        tree_footprint(t).texts >= 0,
        tree_footprint(t).styles >= 0,
        tree_footprint(t).sliders >= 0,
        tree_footprint(t).text_bytes >= 0,
    decreases t, 1int,
{
    match t {
        UiTree::Row { children } => lemma_list_fp_nonneg(children),
        UiTree::Column { children } => lemma_list_fp_nonneg(children),
        UiTree::Stack { children } => lemma_list_fp_nonneg(children),
        UiTree::Button { child, .. } => lemma_list_fp_nonneg(child),
        _ => (),
    }
}

/// No summed footprint field is ever negative.
pub proof fn lemma_list_fp_nonneg(ts: Seq<UiTree>)
    ensures
        list_footprint(ts).elems >= 0,
        list_footprint(ts).arrays >= 0,
        list_footprint(ts).kids >= 0,
        list_footprint(ts).texts >= 0,
        list_footprint(ts).styles >= 0,
        list_footprint(ts).sliders >= 0,
        list_footprint(ts).text_bytes >= 0,
    decreases ts, 0int,
{
    if ts.len() > 0 {
        lemma_tree_fp_nonneg(ts[0]);
        lemma_list_fp_nonneg(ts.skip(1));
    }
}

/// `list_footprint` of a list with one tree appended.
pub proof fn lemma_list_fp_snoc(ts: Seq<UiTree>, x: UiTree)
    ensures
        list_footprint(ts.push(x)) == fp_add(list_footprint(ts), tree_footprint(x)),
    decreases ts.len(),
{
    let s = ts.push(x);
    if ts.len() == 0 {
        assert(s[0] == x);
        assert(s.skip(1) =~= Seq::<UiTree>::empty());
        assert(list_footprint(s.skip(1)) == fp_zero());
        assert(list_footprint(s) =~= fp_add(list_footprint(ts), tree_footprint(x)));
    } else {
        assert(s[0] == ts[0]);
        assert(s.skip(1) =~= ts.skip(1).push(x));
        lemma_list_fp_snoc(ts.skip(1), x);
        assert(list_footprint(s) == fp_add(tree_footprint(ts[0]), list_footprint(s.skip(1))));
        assert(list_footprint(ts) == fp_add(tree_footprint(ts[0]), list_footprint(ts.skip(1))));
        assert(list_footprint(s) =~= fp_add(list_footprint(ts), tree_footprint(x)));
    }
}

/// Splitting a list splits its summed footprint.
pub proof fn lemma_list_fp_split(ts: Seq<UiTree>, k: int)
    requires
        0 <= k <= ts.len(),
    ensures
        list_footprint(ts) == fp_add(list_footprint(ts.take(k)), list_footprint(ts.skip(k))),
    decreases k,
{
    if k == 0 {
        assert(ts.take(0) =~= Seq::<UiTree>::empty());
        assert(ts.skip(0) =~= ts);
        assert(list_footprint(ts) =~= fp_add(list_footprint(ts.take(0)), list_footprint(ts)));
    } else {
        lemma_list_fp_split(ts, k - 1);
        lemma_list_fp_snoc(ts.take(k - 1), ts[k - 1]);
        assert(ts.take(k - 1).push(ts[k - 1]) =~= ts.take(k));
        assert(ts.skip(k - 1)[0] == ts[k - 1]);
        assert(ts.skip(k - 1).skip(1) =~= ts.skip(k));
        assert(list_footprint(ts.skip(k - 1)) == fp_add(tree_footprint(ts[k - 1]), list_footprint(
            ts.skip(k),
        )));
        assert(list_footprint(ts) =~= fp_add(list_footprint(ts.take(k)), list_footprint(
            ts.skip(k),
        )));
    }
}

/// Every tree of an arity-clean list is arity-clean.
pub proof fn lemma_list_arity_at(ts: Seq<UiTree>, j: int)
    requires
        list_arity_ok(ts),
        0 <= j < ts.len(),
    ensures
        tree_arity_ok(ts[j]),
    decreases j,
{
    if j > 0 {
        lemma_list_arity_at(ts.skip(1), j - 1);
    }
}

/// Every tree of a text-clean list is text-clean.
pub proof fn lemma_list_text_at(ts: Seq<UiTree>, j: int)
    requires
        list_text_ok(ts),
        0 <= j < ts.len(),
    ensures
        tree_text_ok(ts[j]),
    decreases j,
{
    if j > 0 {
        lemma_list_text_at(ts.skip(1), j - 1);
    }
}

/// Appends `node`'s flattened form to the arena and returns its element
/// index.  Children are pushed first, so the returned index is the highest
/// so far and every index already handed out keeps describing what it did.
/// Succeeds whenever the tree is encodable — every container within the
/// 255-child wire limit, every text leaf well-formed UTF-8 — and the grown
/// tables still fit the 32-bit index space; each failure names its cause.
#[verifier::rlimit(100)]
pub fn push_node(a: &mut ElementsMemoryArena, node: &WasmUiNode) -> (r: Result<u32, WireError>)
    ensures
        arena_extends(*old(a), *final(a)),
        match r {
            Ok(idx) => arena_rep(*final(a), idx, node_view(*node)) && idx
                == final(a).elements@.len() - 1 && arena_grown(
                *old(a),
                *final(a),
                tree_footprint(node_view(*node)),
            ),
            Err(e) => {
                &&& (e == WireError::ArenaTooLarge || e == WireError::BadChildCount || e
                    == WireError::InvalidTextEncoding)
                &&& (e == WireError::BadChildCount ==> !tree_arity_ok(node_view(*node)))
                &&& (e == WireError::InvalidTextEncoding ==> !tree_text_ok(node_view(*node)))
                &&& (e == WireError::ArenaTooLarge ==> !arena_fits(
                    *old(a),
                    tree_footprint(node_view(*node)),
                ))
            },
        },
        tree_arity_ok(node_view(*node)) && tree_text_ok(node_view(*node)) && arena_fits(
            *old(a),
            tree_footprint(node_view(*node)),
        ) ==> r is Ok,
    decreases *node,
{
    match node {
        WasmUiNode::Row { children } => {
            let r = push_container(a, 1, children);
            proof {
                lemma_nodes_view_len(children@);
            }
            r
        }
        WasmUiNode::Column { children } => {
            let r = push_container(a, 2, children);
            proof {
                lemma_nodes_view_len(children@);
            }
            r
        }
        WasmUiNode::Stack { children } => {
            let r = push_container(a, 6, children);
            proof {
                lemma_nodes_view_len(children@);
            }
            r
        }
        WasmUiNode::Text { content, color } => {
            if !crate::arena::check_utf8(content) {
                return Err(WireError::InvalidTextEncoding);
            }
            if a.text_strings.len() >= u32::MAX as usize || a.elements.len() >= u32::MAX as usize
                || (*color != 0 && a.text_style.len() >= u32::MAX as usize) {
                return Err(WireError::ArenaTooLarge);
            }
            let data_index = a.text_strings.len() as u32;
            let mut c: Vec<u8> = Vec::new();
            let mut i: usize = 0;
            while i < content.len()
                invariant
                    i <= content@.len(),
                    c@ == content@.take(i as int),
                decreases content@.len() - i,
            {
                c.push(content[i]);
                assert(c@ =~= content@.take((i + 1) as int));
                i = i + 1;
            }
            assert(c@ =~= content@);
            proof {
                lemma_text_total_snoc(a.text_strings@, c);
            }
            a.text_strings.push(c);
            let style_index: u32 = if *color != 0 {
                a.text_style.push(RawStyle { text_color: *color });
                a.text_style.len() as u32
            } else {
                0
            };
            a.elements.push(RawElement {
                tag: 3,
                child_count: 0,
                children_index: 0,
                data_index,
                callback_index: 0,
                style_index,
            });
            assert(a.text_strings@.take(a.text_strings@.len() - 1).push(
                a.text_strings@[a.text_strings@.len() - 1],
            ) =~= a.text_strings@);
            Ok((a.elements.len() - 1) as u32)
        }
        WasmUiNode::Button { inner, callback_id } => {
            proof {
                assert(seq![node_view(**inner)][0] == node_view(**inner));
                assert(seq![node_view(**inner)].skip(1) =~= Seq::<UiTree>::empty());
                assert(list_footprint(Seq::<UiTree>::empty()) == fp_zero());
                assert(list_footprint(seq![node_view(**inner)]) == fp_add(
                    tree_footprint(node_view(**inner)),
                    fp_zero(),
                ));
                lemma_tree_fp_nonneg(node_view(**inner));
            }
            let child_index = match push_node(a, inner) {
                Ok(i) => i,
                Err(e) => {
                    return Err(e);
                }
            };
            if a.children.len() >= u32::MAX as usize || a.elements.len() >= u32::MAX as usize {
                return Err(WireError::ArenaTooLarge);
            }
            let ghost a_mid = *a;
            let mut ids: Vec<u32> = Vec::new();
            ids.push(child_index);
            proof {
                lemma_kid_total_snoc(a.children@, ids);
            }
            a.children.push(ids);
            let children_index = (a.children.len() - 1) as u32;
            a.elements.push(RawElement {
                tag: 4,
                child_count: 1,
                children_index,
                data_index: 0,
                callback_index: *callback_id,
                style_index: 0,
            });
            let idx = (a.elements.len() - 1) as u32;
            proof {
                assert(arena_extends(a_mid, *a));
                lemma_arena_rep_extends(a_mid, *a, child_index, node_view(**inner));
                assert(child_index < idx);
                let kid_ids = a.children@[children_index as int]@;
                assert(kid_ids =~= seq![child_index]);
                assert(kid_ids.len() == 1 && kid_ids[0] == child_index);
                assert(kid_ids.skip(1) =~= Seq::<u32>::empty());
                assert(seq![node_view(**inner)].skip(1) =~= Seq::<UiTree>::empty());
                assert(kids_rep(*a, kid_ids.skip(1), idx, seq![node_view(**inner)].skip(1)));
                assert(arena_rep(*a, child_index, node_view(**inner)));
                assert(kids_rep(*a, kid_ids, idx, seq![node_view(**inner)]));
            }
            Ok(idx)
        }
        WasmUiNode::Slider { number_type, range_min, range_max, value, callback_id } => {
            if a.slider_data.len() >= u32::MAX as usize || a.elements.len() >= u32::MAX as usize {
                return Err(WireError::ArenaTooLarge);
            }
            let data_index = a.slider_data.len() as u32;
            a.slider_data.push(RawSliderData {
                number_type: number_type.code(),
                range_min: *range_min,
                range_max: *range_max,
                value: *value,
            });
            a.elements.push(RawElement {
                tag: 5,
                child_count: 0,
                children_index: 0,
                data_index,
                callback_index: *callback_id,
                style_index: 0,
            });
            Ok((a.elements.len() - 1) as u32)
        }
    }
}

/// Appends a container node: children first, then their index list as one
/// children-table entry, then the element itself.
#[verifier::rlimit(100)]
fn push_container(a: &mut ElementsMemoryArena, tag: u8, children: &Vec<WasmUiNode>) -> (r: Result<
    u32,
    WireError,
>)
    requires
        tag == 1 || tag == 2 || tag == 6,
    ensures
        arena_extends(*old(a), *final(a)),
        match r {
            Ok(idx) => idx == final(a).elements@.len() - 1 && arena_rep(
                *final(a),
                idx,
                if tag == 1 {
                    UiTree::Row { children: nodes_view(children@) }
                } else if tag == 2 {
                    UiTree::Column { children: nodes_view(children@) }
                } else {
                    UiTree::Stack { children: nodes_view(children@) }
                },
            ) && arena_grown(
                *old(a),
                *final(a),
                fp_add(
                    list_footprint(nodes_view(children@)),
                    container_fp(children@.len() as int),
                ),
            ),
            Err(e) => {
                &&& (e == WireError::ArenaTooLarge || e == WireError::BadChildCount || e
                    == WireError::InvalidTextEncoding)
                &&& (e == WireError::BadChildCount ==> children@.len() > 255 || !list_arity_ok(
                    nodes_view(children@),
                ))
                &&& (e == WireError::InvalidTextEncoding ==> !list_text_ok(
                    nodes_view(children@),
                ))
                &&& (e == WireError::ArenaTooLarge ==> !arena_fits(
                    *old(a),
                    fp_add(
                        list_footprint(nodes_view(children@)),
                        container_fp(children@.len() as int),
                    ),
                ))
            },
        },
    decreases children@,
{
    let ghost cs = nodes_view(children@);
    let ghost total_fp = fp_add(list_footprint(cs), container_fp(children@.len() as int));
    proof {
        lemma_nodes_view_len(children@);
        lemma_list_fp_nonneg(cs);
    }
    if children.len() > 255 {
        return Err(WireError::BadChildCount);
    }
    proof {
        assert(cs.take(0) =~= Seq::<UiTree>::empty());
    }
    let mut ids: Vec<u32> = Vec::new();
    let mut j: usize = 0;
    while j < children.len()
        invariant
            j <= children@.len(),
            children@.len() <= 255,
            cs == nodes_view(children@),
            cs.len() == children@.len(),
            total_fp == fp_add(list_footprint(cs), container_fp(children@.len() as int)),
            ids@.len() == j,
            forall|k: int| 0 <= k < j ==> (#[trigger] ids@[k]) < a.elements@.len(),
            forall|k: int|
                0 <= k < j ==> #[trigger] arena_rep(*a, ids@[k], node_view(children@[k])),
            arena_extends(*old(a), *a),
            arena_grown(*old(a), *a, list_footprint(cs.take(j as int))),
        decreases children@.len() - j,
    {
        let ghost a_pre = *a;
        let ghost ids_pre = ids@;
        proof {
            lemma_nodes_view_index(children@, j as int);
        }
        let child_index = match push_node(a, &children[j]) {
            Ok(i) => i,
            Err(e) => {
                proof {
                    if e == WireError::BadChildCount {
                        if list_arity_ok(cs) {
                            lemma_list_arity_at(cs, j as int);
                        }
                    }
                    if e == WireError::InvalidTextEncoding {
                        if list_text_ok(cs) {
                            lemma_list_text_at(cs, j as int);
                        }
                    }
                    if e == WireError::ArenaTooLarge {
                        lemma_list_fp_split(cs, j as int);
                        assert(cs.skip(j as int)[0] == cs[j as int]);
                        assert(cs.skip(j as int).skip(1) =~= cs.skip(j + 1));
                        assert(list_footprint(cs.skip(j as int)) == fp_add(
                            tree_footprint(cs[j as int]),
                            list_footprint(cs.skip(j + 1)),
                        ));
                        lemma_list_fp_nonneg(cs.skip(j + 1));
                        lemma_list_fp_nonneg(cs.take(j as int));
                        lemma_tree_fp_nonneg(cs[j as int]);
                    }
                }
                return Err(e);
            }
        };
        ids.push(child_index);
        proof {
            lemma_list_fp_snoc(cs.take(j as int), cs[j as int]);
            assert(cs.take(j as int).push(cs[j as int]) =~= cs.take(j + 1));
            assert forall|k: int| 0 <= k < j + 1 implies (#[trigger] ids@[k])
                < a.elements@.len() by {
                if k < j {
                    assert(ids@[k] == ids_pre[k]);
                }
            }
            assert forall|k: int| 0 <= k < j + 1 implies #[trigger] arena_rep(
                *a,
                ids@[k],
                node_view(children@[k]),
            ) by {
                if k < j {
                    assert(ids@[k] == ids_pre[k]);
                    assert(arena_rep(a_pre, ids_pre[k], node_view(children@[k])));
                    lemma_arena_rep_extends(a_pre, *a, ids_pre[k], node_view(children@[k]));
                } else {
                    assert(ids@[k] == child_index);
                }
            }
        }
        j = j + 1;
    }
    proof {
        assert(cs.take(children@.len() as int) =~= cs);
    }
    if a.elements.len() >= u32::MAX as usize {
        return Err(WireError::ArenaTooLarge);
    }
    if children.len() > 0 && a.children.len() >= u32::MAX as usize {
        return Err(WireError::ArenaTooLarge);
    }
    let ghost ids_spec = ids@;
    let ghost a_loop = *a;
    let children_index: u32 = if children.len() > 0 {
        proof {
            lemma_kid_total_snoc(a.children@, ids);
        }
        a.children.push(ids);
        (a.children.len() - 1) as u32
    } else {
        0
    };
    a.elements.push(RawElement {
        tag,
        child_count: children.len() as u8,
        children_index,
        data_index: 0,
        callback_index: 0,
        style_index: 0,
    });
    let idx = (a.elements.len() - 1) as u32;
    proof {
        assert(arena_extends(a_loop, *a));
        lemma_nodes_view_len(children@);
        if children@.len() > 0 {
            assert(a.children@[children_index as int]@ == ids_spec);
            assert forall|k: int| 0 <= k < ids_spec.len() implies (#[trigger] ids_spec[k])
                < idx by {
                assert(ids_spec[k] < a_loop.elements@.len());
            }
            assert forall|k: int| 0 <= k < ids_spec.len() implies #[trigger] arena_rep(
                *a,
                ids_spec[k],
                cs[k],
            ) by {
                lemma_nodes_view_index(children@, k);
                assert(arena_rep(a_loop, ids_spec[k], node_view(children@[k])));
                lemma_arena_rep_extends(a_loop, *a, ids_spec[k], cs[k]);
            }
            lemma_kids_rep_intro(*a, ids_spec, idx, cs);
        }
    }
    Ok(idx)
}

/// Pairwise description of children assembles into `kids_rep`.
#[verifier::rlimit(100)]
pub proof fn lemma_kids_rep_intro(
    a: ElementsMemoryArena,
    ids: Seq<u32>,
    bound: u32,
    children: Seq<UiTree>,
)
    requires
        ids.len() == children.len(),
        forall|k: int| 0 <= k < ids.len() ==> (#[trigger] ids[k]) < bound,
        forall|k: int| 0 <= k < ids.len() ==> #[trigger] arena_rep(a, ids[k], children[k]),
    ensures
        kids_rep(a, ids, bound, children),
    decreases children.len(),
{
    if children.len() > 0 {
        assert(arena_rep(a, ids[0], children[0]));
        assert(ids[0] < bound);
        assert forall|k: int| 0 <= k < ids.skip(1).len() implies (#[trigger] ids.skip(1)[k])
            < bound by {
            assert(ids.skip(1)[k] == ids[k + 1]);
        }
        assert forall|k: int| 0 <= k < ids.skip(1).len() implies #[trigger] arena_rep(
            a,
            ids.skip(1)[k],
            children.skip(1)[k],
        ) by {
            assert(ids.skip(1)[k] == ids[k + 1]);
            assert(children.skip(1)[k] == children[k + 1]);
            assert(arena_rep(a, ids[k + 1], children[k + 1]));
        }
        lemma_kids_rep_intro(a, ids.skip(1), bound, children.skip(1));
    }
}


/// Total index count over all committed children arrays.
pub open spec fn kid_total(ch: Seq<Vec<u32>>) -> int
    decreases ch.len(),
{
    if ch.len() == 0 {
        0
    } else {
        ch[0]@.len() + kid_total(ch.skip(1))
    }
}

/// Total byte count over all text contents.
pub open spec fn text_total(ts: Seq<Vec<u8>>) -> int
    decreases ts.len(),
{
    if ts.len() == 0 {
        0
    } else {
        ts[0]@.len() + text_total(ts.skip(1))
    }
}

/// `kid_total` of a table with one array appended.
pub proof fn lemma_kid_total_snoc(ch: Seq<Vec<u32>>, x: Vec<u32>)
    ensures
        kid_total(ch.push(x)) == kid_total(ch) + x@.len(),
    decreases ch.len(),
{
    let s = ch.push(x);
    if ch.len() == 0 {
        assert(s[0] == x);
        assert(s.skip(1) =~= Seq::<Vec<u32>>::empty());
        assert(kid_total(s) == x@.len() + kid_total(s.skip(1)));
        assert(kid_total(s.skip(1)) == 0);
        assert(kid_total(ch) == 0);
    } else {
        assert(s[0] == ch[0]);
        assert(s.skip(1) =~= ch.skip(1).push(x));
        lemma_kid_total_snoc(ch.skip(1), x);
        assert(kid_total(s) == s[0]@.len() + kid_total(s.skip(1)));
        assert(kid_total(ch) == ch[0]@.len() + kid_total(ch.skip(1)));
    }
}

/// `text_total` of a table with one content appended.
pub proof fn lemma_text_total_snoc(ts: Seq<Vec<u8>>, x: Vec<u8>)
    ensures
        text_total(ts.push(x)) == text_total(ts) + x@.len(),
    decreases ts.len(),
{
    let s = ts.push(x);
    if ts.len() == 0 {
        assert(s[0] == x);
        assert(s.skip(1) =~= Seq::<Vec<u8>>::empty());
        assert(text_total(s) == x@.len() + text_total(s.skip(1)));
        assert(text_total(s.skip(1)) == 0);
        assert(text_total(ts) == 0);
    } else {
        assert(s[0] == ts[0]);
        assert(s.skip(1) =~= ts.skip(1).push(x));
        lemma_text_total_snoc(ts.skip(1), x);
        assert(text_total(s) == s[0]@.len() + text_total(s.skip(1)));
        assert(text_total(ts) == ts[0]@.len() + text_total(ts.skip(1)));
    }
}

/// Splitting the children table splits its index total; both parts are
/// nonnegative.
pub proof fn lemma_kid_total_split(ch: Seq<Vec<u32>>, k: int)
    requires
        0 <= k <= ch.len(),
    ensures
        kid_total(ch) == kid_total(ch.take(k)) + kid_total(ch.skip(k)),
        kid_total(ch.take(k)) >= 0,
        kid_total(ch.skip(k)) >= 0,
    decreases k,
{
    lemma_kid_total_nonneg(ch.take(k));
    lemma_kid_total_nonneg(ch.skip(k));
    if k == 0 {
        assert(ch.take(0) =~= Seq::<Vec<u32>>::empty());
        assert(ch.skip(0) =~= ch);
    } else {
        lemma_kid_total_split(ch, k - 1);
        lemma_kid_total_snoc(ch.take(k - 1), ch[k - 1]);
        assert(ch.take(k - 1).push(ch[k - 1]) =~= ch.take(k));
        assert(ch.skip(k - 1)[0] == ch[k - 1]);
        assert(ch.skip(k - 1).skip(1) =~= ch.skip(k));
        assert(kid_total(ch.skip(k - 1)) == ch[k - 1]@.len() + kid_total(ch.skip(k)));
    }
}

/// An index total is never negative.
pub proof fn lemma_kid_total_nonneg(ch: Seq<Vec<u32>>)
    ensures
        kid_total(ch) >= 0,
    decreases ch.len(),
{
    if ch.len() > 0 {
        lemma_kid_total_nonneg(ch.skip(1));
    }
}

/// Splitting the text table splits its byte total; both parts are
/// nonnegative.
pub proof fn lemma_text_total_split(ts: Seq<Vec<u8>>, k: int)
    requires
        0 <= k <= ts.len(),
    ensures
        text_total(ts) == text_total(ts.take(k)) + text_total(ts.skip(k)),
        text_total(ts.take(k)) >= 0,
        text_total(ts.skip(k)) >= 0,
    decreases k,
{
    lemma_text_total_nonneg(ts.take(k));
    lemma_text_total_nonneg(ts.skip(k));
    if k == 0 {
        assert(ts.take(0) =~= Seq::<Vec<u8>>::empty());
        assert(ts.skip(0) =~= ts);
    } else {
        lemma_text_total_split(ts, k - 1);
        lemma_text_total_snoc(ts.take(k - 1), ts[k - 1]);
        assert(ts.take(k - 1).push(ts[k - 1]) =~= ts.take(k));
        assert(ts.skip(k - 1)[0] == ts[k - 1]);
        assert(ts.skip(k - 1).skip(1) =~= ts.skip(k));
        assert(text_total(ts.skip(k - 1)) == ts[k - 1]@.len() + text_total(ts.skip(k)));
    }
}

/// A byte total is never negative.
pub proof fn lemma_text_total_nonneg(ts: Seq<Vec<u8>>)
    ensures
        text_total(ts) >= 0,
    decreases ts.len(),
{
    if ts.len() > 0 {
        lemma_text_total_nonneg(ts.skip(1));
    }
}

/// Byte offset of the children-pointer table in a serialized arena.
pub open spec fn ptrs_base(a: ElementsMemoryArena) -> int {
    20 * a.elements@.len() as int
}

/// Byte offset of the text payload-record table.
pub open spec fn text_data_base(a: ElementsMemoryArena) -> int {
    ptrs_base(a) + 4 * a.children@.len() as int
}

/// Byte offset of the text style table.
pub open spec fn style_base(a: ElementsMemoryArena) -> int {
    text_data_base(a) + 8 * a.text_strings@.len() as int
}

/// Byte offset of the slider table.
pub open spec fn slider_base(a: ElementsMemoryArena) -> int {
    style_base(a) + a.text_style@.len() as int
}

/// Byte offset of the region holding the children index arrays.
pub open spec fn arrays_base(a: ElementsMemoryArena) -> int {
    slider_base(a) + 32 * a.slider_data@.len() as int
}

/// Byte offset of the region holding the text content bytes.
pub open spec fn content_base(a: ElementsMemoryArena) -> int {
    arrays_base(a) + 4 * kid_total(a.children@)
}

/// Total length of the serialized arena.
pub open spec fn blob_len(a: ElementsMemoryArena) -> int {
    content_base(a) + text_total(a.text_strings@)
}

/// The table-offset record describing a serialized arena whose root is
/// element `head`.
pub open spec fn arena_vfd(a: ElementsMemoryArena, head: u32) -> ViewFuncData {
    ViewFuncData {
        head_index: head,
        elements_ptr: 0,
        children_ptr: ptrs_base(a) as u32,
        text_data_ptr: text_data_base(a) as u32,
        text_style_ptr: style_base(a) as u32,
        slider_data_ptr: slider_base(a) as u32,
    }
}

/// The wire bytes of one children index array.
pub open spec fn ids_bytes(ids: Seq<u32>) -> Seq<u8> {
    concat_all(ids.map_values(|v: u32| le32_bytes(v as int)))
}

/// Element-table chunks.
pub open spec fn elem_chunks(es: Seq<RawElement>) -> Seq<Seq<u8>> {
    es.map_values(|e: RawElement| elem_bytes(e))
}

/// Children-pointer-table chunks: slot `i` points at array `i`'s offset.
pub open spec fn ptr_chunks(a: ElementsMemoryArena) -> Seq<Seq<u8>> {
    Seq::new(a.children@.len(), |i: int|
        le32_bytes(arrays_base(a) + 4 * kid_total(a.children@.take(i))))
}

/// Text payload-record chunks: record `i` names content `i`'s offset and
/// length.
pub open spec fn text_rec_chunks(a: ElementsMemoryArena) -> Seq<Seq<u8>> {
    Seq::new(a.text_strings@.len(), |i: int|
        text_rec_bytes(crate::arena::RawTextData {
            content_ptr: (content_base(a) + text_total(a.text_strings@.take(i))) as u32,
            content_len: a.text_strings@[i]@.len() as u32,
        }))
}

/// Style-table chunks.
pub open spec fn style_chunks(ss: Seq<RawStyle>) -> Seq<Seq<u8>> {
    ss.map_values(|s: RawStyle| seq![s.text_color])
}

/// Slider-table chunks.
pub open spec fn slider_chunks(ss: Seq<RawSliderData>) -> Seq<Seq<u8>> {
    ss.map_values(|s: RawSliderData| slider_bytes(s))
}

/// Children index-array chunks.
pub open spec fn array_chunks(ch: Seq<Vec<u32>>) -> Seq<Seq<u8>> {
    ch.map_values(|v: Vec<u32>| ids_bytes(v@))
}

/// Text content chunks.
pub open spec fn content_chunks(ts: Seq<Vec<u8>>) -> Seq<Seq<u8>> {
    ts.map_values(|v: Vec<u8>| v@)
}

/// The whole serialized arena: the five fixed-stride tables, then the
/// children index arrays, then the text contents.
pub open spec fn blob_bytes(a: ElementsMemoryArena) -> Seq<u8> {
    concat_all(elem_chunks(a.elements@)) + concat_all(ptr_chunks(a)) + concat_all(
        text_rec_chunks(a),
    ) + concat_all(style_chunks(a.text_style@)) + concat_all(slider_chunks(a.slider_data@))
        + concat_all(array_chunks(a.children@)) + concat_all(content_chunks(a.text_strings@))
}


/// The index stored in array slot `j` of the children array whose pointer
/// sits at byte offset `i_ptr` of the pointer table.
pub open spec fn kid_slot(m: Seq<u8>, i_ptr: int, j: int) -> int {
    le32_at(m, le32_at(m, i_ptr) + 4 * j)
}

/// The bytes `m` contain the arena `a`, laid out as `d` describes: every
/// record of every table reads back from `m` as the table holds it, with
/// every read in bounds.  This is everything the decoder's round trip needs
/// to know of a serialized arena.
pub open spec fn blob_rep(m: Seq<u8>, d: ViewFuncData, a: ElementsMemoryArena) -> bool {
    &&& forall|i: int|
        0 <= i < a.elements@.len() ==> rec_off(d.elements_ptr, 20, i) + 20 <= m.len()
            && #[trigger] spec_elem_at(m, rec_off(d.elements_ptr, 20, i)) == a.elements@[i]
    &&& forall|i: int|
        0 <= i < a.children@.len() ==> rec_off(d.children_ptr, 4, i) + 4 <= m.len() && (
        #[trigger] le32_at(m, rec_off(d.children_ptr, 4, i))) + 4 * a.children@[i]@.len()
            <= m.len()
    &&& forall|i: int, j: int|
        0 <= i < a.children@.len() && 0 <= j < a.children@[i]@.len() ==> #[trigger] kid_slot(
            m,
            rec_off(d.children_ptr, 4, i),
            j,
        ) == a.children@[i]@[j]
    &&& forall|i: int|
        0 <= i < a.text_strings@.len() ==> rec_off(d.text_data_ptr, 8, i) + 8 <= m.len() && {
            let tr = #[trigger] spec_text_rec_at(m, rec_off(d.text_data_ptr, 8, i));
            tr.content_len == a.text_strings@[i]@.len() && tr.content_ptr + tr.content_len
                <= m.len() && m.subrange(tr.content_ptr as int, tr.content_ptr + tr.content_len)
                == a.text_strings@[i]@
        }
    &&& forall|i: int|
        0 <= i < a.text_style@.len() ==> (#[trigger] rec_off(d.text_style_ptr, 1, i)) + 1
            <= m.len() && m[rec_off(d.text_style_ptr, 1, i)] == a.text_style@[i].text_color
    &&& forall|i: int|
        0 <= i < a.slider_data@.len() ==> rec_off(d.slider_data_ptr, 32, i) + 32 <= m.len()
            && #[trigger] spec_slider_at(m, rec_off(d.slider_data_ptr, 32, i))
            == a.slider_data@[i]
}

/// Every element chunk is 20 bytes.
#[verifier::rlimit(100)]
proof fn lemma_elem_chunks_uniform(es: Seq<RawElement>)
    ensures
        elem_chunks(es).len() == es.len(),
        forall|j: int| 0 <= j < es.len() ==> (#[trigger] elem_chunks(es)[j]).len() == 20,
        forall|j: int| 0 <= j < es.len() ==> #[trigger] elem_chunks(es)[j] == elem_bytes(es[j]),
{
    assert forall|j: int| 0 <= j < es.len() implies (#[trigger] elem_chunks(es)[j]).len() == 20
        && elem_chunks(es)[j] == elem_bytes(es[j]) by {
        assert(elem_chunks(es)[j] == elem_bytes(es[j]));
    }
}

/// Every slider chunk is 32 bytes.
#[verifier::rlimit(100)]
proof fn lemma_slider_chunks_uniform(ss: Seq<RawSliderData>)
    ensures
        slider_chunks(ss).len() == ss.len(),
        forall|j: int| 0 <= j < ss.len() ==> (#[trigger] slider_chunks(ss)[j]).len() == 32,
        forall|j: int| 0 <= j < ss.len() ==> #[trigger] slider_chunks(ss)[j] == slider_bytes(ss[j]),
{
    assert forall|j: int| 0 <= j < ss.len() implies (#[trigger] slider_chunks(ss)[j]).len() == 32
        && slider_chunks(ss)[j] == slider_bytes(ss[j]) by {
        assert(slider_chunks(ss)[j] == slider_bytes(ss[j]));
    }
}

/// Every style chunk is one byte.
#[verifier::rlimit(100)]
proof fn lemma_style_chunks_uniform(ss: Seq<RawStyle>)
    ensures
        style_chunks(ss).len() == ss.len(),
        forall|j: int| 0 <= j < ss.len() ==> (#[trigger] style_chunks(ss)[j]).len() == 1,
        forall|j: int| 0 <= j < ss.len() ==> #[trigger] style_chunks(ss)[j] == seq![
            ss[j].text_color,
        ],
{
    assert forall|j: int| 0 <= j < ss.len() implies (#[trigger] style_chunks(ss)[j]).len() == 1
        && style_chunks(ss)[j] == seq![ss[j].text_color] by {
        assert(style_chunks(ss)[j] == seq![ss[j].text_color]);
    }
}

/// An index array serializes to 4 bytes per index, index `j` at `4 * j`.
#[verifier::rlimit(100)]
proof fn lemma_ids_bytes(ids: Seq<u32>)
    ensures
        ids_bytes(ids).len() == 4 * ids.len(),
        forall|j: int|
            0 <= j < ids.len() ==> #[trigger] ids_bytes(ids).subrange(4 * j, 4 * j + 4)
                == le32_bytes(ids[j] as int),
{
    let cs = ids.map_values(|v: u32| le32_bytes(v as int));
    assert forall|j: int| 0 <= j < ids.len() implies (#[trigger] cs[j]).len() == 4 by {
        assert(cs[j] == le32_bytes(ids[j] as int));
    }
    crate::mem::lemma_concat_len(cs);
    crate::mem::lemma_lens_sum_uniform(cs, 4, cs.len() as int);
    assert(cs.take(cs.len() as int) =~= cs);
    assert forall|j: int| 0 <= j < ids.len() implies #[trigger] ids_bytes(ids).subrange(
        4 * j,
        4 * j + 4,
    ) == le32_bytes(ids[j] as int) by {
        crate::mem::lemma_concat_mid(cs, j);
        crate::mem::lemma_lens_sum_uniform(cs, 4, j);
        assert(cs[j] == le32_bytes(ids[j] as int));
    }
}

/// The array region is 4 bytes per committed index; array `i` begins at
/// `4 * kid_total` of the arrays before it.
#[verifier::rlimit(100)]
proof fn lemma_array_chunks_lens(ch: Seq<Vec<u32>>)
    ensures
        array_chunks(ch).len() == ch.len(),
        lens_sum(array_chunks(ch)) == 4 * kid_total(ch),
        forall|i: int|
            0 <= i <= ch.len() ==> #[trigger] lens_sum(array_chunks(ch).take(i)) == 4 * kid_total(
                ch.take(i),
            ),
    decreases ch.len(),
{
    assert forall|i: int| 0 <= i <= ch.len() implies #[trigger] lens_sum(array_chunks(ch).take(i))
        == 4 * kid_total(ch.take(i)) by {
        lemma_array_prefix(ch, i);
    }
    lemma_array_prefix(ch, ch.len() as int);
    assert(array_chunks(ch).take(ch.len() as int) =~= array_chunks(ch));
    assert(ch.take(ch.len() as int) =~= ch);
}

/// Prefix form of the array-region length fact.
#[verifier::rlimit(100)]
proof fn lemma_array_prefix(ch: Seq<Vec<u32>>, i: int)
    requires
        0 <= i <= ch.len(),
    ensures
        lens_sum(array_chunks(ch).take(i)) == 4 * kid_total(ch.take(i)),
    decreases i,
{
    if i == 0 {
        assert(array_chunks(ch).take(0) =~= Seq::<Seq<u8>>::empty());
        assert(ch.take(0) =~= Seq::<Vec<u32>>::empty());
    } else {
        lemma_array_prefix(ch, i - 1);
        crate::mem::lemma_concat_snoc(array_chunks(ch).take(i - 1), array_chunks(ch)[i - 1]);
        assert(array_chunks(ch).take(i - 1).push(array_chunks(ch)[i - 1]) =~= array_chunks(
            ch,
        ).take(i));
        lemma_kid_total_snoc(ch.take(i - 1), ch[i - 1]);
        assert(ch.take(i - 1).push(ch[i - 1]) =~= ch.take(i));
        assert(array_chunks(ch)[i - 1] == ids_bytes(ch[i - 1]@));
        lemma_ids_bytes(ch[i - 1]@);
    }
}

/// The content region is the text byte total; content `i` begins at the
/// byte total of the contents before it.
#[verifier::rlimit(100)]
proof fn lemma_content_prefix(ts: Seq<Vec<u8>>, i: int)
    requires
        0 <= i <= ts.len(),
    ensures
        lens_sum(content_chunks(ts).take(i)) == text_total(ts.take(i)),
    decreases i,
{
    if i == 0 {
        assert(content_chunks(ts).take(0) =~= Seq::<Seq<u8>>::empty());
        assert(ts.take(0) =~= Seq::<Vec<u8>>::empty());
    } else {
        lemma_content_prefix(ts, i - 1);
        crate::mem::lemma_concat_snoc(content_chunks(ts).take(i - 1), content_chunks(ts)[i - 1]);
        assert(content_chunks(ts).take(i - 1).push(content_chunks(ts)[i - 1]) =~= content_chunks(
            ts,
        ).take(i));
        lemma_text_total_snoc(ts.take(i - 1), ts[i - 1]);
        assert(ts.take(i - 1).push(ts[i - 1]) =~= ts.take(i));
        assert(content_chunks(ts)[i - 1] == ts[i - 1]@);
    }
}

/// Length of the serialized element table.
#[verifier::rlimit(100)]
proof fn lemma_region_len_elems(a: ElementsMemoryArena)
    ensures
        concat_all(elem_chunks(a.elements@)).len() == 20 * a.elements@.len() as int,
{
    lemma_elem_chunks_uniform(a.elements@);
    crate::mem::lemma_concat_len(elem_chunks(a.elements@));
    crate::mem::lemma_lens_sum_uniform(elem_chunks(a.elements@), 20, a.elements@.len() as int);
    assert(elem_chunks(a.elements@).take(a.elements@.len() as int) =~= elem_chunks(a.elements@));
}

/// Length of the serialized children-pointer table.
#[verifier::rlimit(100)]
proof fn lemma_region_len_ptrs(a: ElementsMemoryArena)
    ensures
        concat_all(ptr_chunks(a)).len() == 4 * a.children@.len() as int,
{
    assert forall|j: int| 0 <= j < ptr_chunks(a).len() implies (#[trigger] ptr_chunks(a)[j]).len()
        == 4 by {
        assert(ptr_chunks(a)[j] == le32_bytes(arrays_base(a) + 4 * kid_total(
            a.children@.take(j),
        )));
    }
    crate::mem::lemma_concat_len(ptr_chunks(a));
    crate::mem::lemma_lens_sum_uniform(ptr_chunks(a), 4, a.children@.len() as int);
    assert(ptr_chunks(a).take(a.children@.len() as int) =~= ptr_chunks(a));
}

/// Length of the serialized text payload-record table.
#[verifier::rlimit(100)]
proof fn lemma_region_len_text_recs(a: ElementsMemoryArena)
    ensures
        concat_all(text_rec_chunks(a)).len() == 8 * a.text_strings@.len() as int,
{
    assert forall|j: int| 0 <= j < text_rec_chunks(a).len() implies (#[trigger] text_rec_chunks(
        a,
    )[j]).len() == 8 by {
        assert(text_rec_chunks(a)[j] == text_rec_bytes(crate::arena::RawTextData {
            content_ptr: (content_base(a) + text_total(a.text_strings@.take(j))) as u32,
            content_len: a.text_strings@[j]@.len() as u32,
        }));
    }
    crate::mem::lemma_concat_len(text_rec_chunks(a));
    crate::mem::lemma_lens_sum_uniform(text_rec_chunks(a), 8, a.text_strings@.len() as int);
    assert(text_rec_chunks(a).take(a.text_strings@.len() as int) =~= text_rec_chunks(a));
}

/// Length of the serialized style table.
#[verifier::rlimit(100)]
proof fn lemma_region_len_styles(a: ElementsMemoryArena)
    ensures
        concat_all(style_chunks(a.text_style@)).len() == a.text_style@.len() as int,
{
    lemma_style_chunks_uniform(a.text_style@);
    crate::mem::lemma_concat_len(style_chunks(a.text_style@));
    crate::mem::lemma_lens_sum_uniform(style_chunks(a.text_style@), 1, a.text_style@.len() as int);
    assert(style_chunks(a.text_style@).take(a.text_style@.len() as int) =~= style_chunks(
        a.text_style@,
    ));
}

/// Length of the serialized slider table.
#[verifier::rlimit(100)]
proof fn lemma_region_len_sliders(a: ElementsMemoryArena)
    ensures
        concat_all(slider_chunks(a.slider_data@)).len() == 32 * a.slider_data@.len() as int,
{
    lemma_slider_chunks_uniform(a.slider_data@);
    crate::mem::lemma_concat_len(slider_chunks(a.slider_data@));
    crate::mem::lemma_lens_sum_uniform(slider_chunks(a.slider_data@), 32,
        a.slider_data@.len() as int);
    assert(slider_chunks(a.slider_data@).take(a.slider_data@.len() as int) =~= slider_chunks(
        a.slider_data@,
    ));
}

/// Length of the children index-array region.
#[verifier::rlimit(100)]
proof fn lemma_region_len_arrays(a: ElementsMemoryArena)
    ensures
        concat_all(array_chunks(a.children@)).len() == 4 * kid_total(a.children@),
{
    lemma_array_chunks_lens(a.children@);
    crate::mem::lemma_concat_len(array_chunks(a.children@));
}

/// Length of the text content region.
#[verifier::rlimit(100)]
proof fn lemma_region_len_contents(a: ElementsMemoryArena)
    ensures
        concat_all(content_chunks(a.text_strings@)).len() == text_total(a.text_strings@),
{
    crate::mem::lemma_concat_len(content_chunks(a.text_strings@));
    lemma_content_prefix(a.text_strings@, a.text_strings@.len() as int);
    assert(content_chunks(a.text_strings@).take(a.text_strings@.len() as int) =~= content_chunks(
        a.text_strings@,
    ));
    assert(a.text_strings@.take(a.text_strings@.len() as int) =~= a.text_strings@);
}

/// Lengths of the seven regions of a serialized arena.
proof fn lemma_blob_region_lens(a: ElementsMemoryArena)
    ensures
        concat_all(elem_chunks(a.elements@)).len() == 20 * a.elements@.len() as int,
        concat_all(ptr_chunks(a)).len() == 4 * a.children@.len() as int,
        concat_all(text_rec_chunks(a)).len() == 8 * a.text_strings@.len() as int,
        concat_all(style_chunks(a.text_style@)).len() == a.text_style@.len() as int,
        concat_all(slider_chunks(a.slider_data@)).len() == 32 * a.slider_data@.len() as int,
        concat_all(array_chunks(a.children@)).len() == 4 * kid_total(a.children@),
        concat_all(content_chunks(a.text_strings@)).len() == text_total(a.text_strings@),
{
    lemma_region_len_elems(a);
    lemma_region_len_ptrs(a);
    lemma_region_len_text_recs(a);
    lemma_region_len_styles(a);
    lemma_region_len_sliders(a);
    lemma_region_len_arrays(a);
    lemma_region_len_contents(a);
}

/// The slice of the whole blob each region occupies.
#[verifier::rlimit(100)]
proof fn lemma_blob_region_slices(a: ElementsMemoryArena)
    ensures
        blob_bytes(a).len() == blob_len(a),
        blob_bytes(a).subrange(0, ptrs_base(a)) == concat_all(elem_chunks(a.elements@)),
        blob_bytes(a).subrange(ptrs_base(a), text_data_base(a)) == concat_all(ptr_chunks(a)),
        blob_bytes(a).subrange(text_data_base(a), style_base(a)) == concat_all(text_rec_chunks(a)),
        blob_bytes(a).subrange(style_base(a), slider_base(a)) == concat_all(style_chunks(
            a.text_style@,
        )),
        blob_bytes(a).subrange(slider_base(a), arrays_base(a)) == concat_all(slider_chunks(
            a.slider_data@,
        )),
        blob_bytes(a).subrange(arrays_base(a), content_base(a)) == concat_all(array_chunks(
            a.children@,
        )),
        blob_bytes(a).subrange(content_base(a), blob_len(a)) == concat_all(content_chunks(
            a.text_strings@,
        )),
{
    lemma_blob_region_lens(a);
    let r0 = concat_all(elem_chunks(a.elements@));
    let r1 = concat_all(ptr_chunks(a));
    let r2 = concat_all(text_rec_chunks(a));
    let r3 = concat_all(style_chunks(a.text_style@));
    let r4 = concat_all(slider_chunks(a.slider_data@));
    let r5 = concat_all(array_chunks(a.children@));
    let r6 = concat_all(content_chunks(a.text_strings@));
    let m = blob_bytes(a);
    let c1 = r0 + r1;
    let c2 = c1 + r2;
    let c3 = c2 + r3;
    let c4 = c3 + r4;
    let c5 = c4 + r5;
    let c6 = c5 + r6;
    assert(m == c6);
    assert(m.len() == blob_len(a));
    assert(c6.subrange(0, c5.len() as int) =~= c5);
    assert(c5.subrange(0, c4.len() as int) =~= c4);
    assert(c4.subrange(0, c3.len() as int) =~= c3);
    assert(c3.subrange(0, c2.len() as int) =~= c2);
    assert(c2.subrange(0, c1.len() as int) =~= c1);
    lemma_subrange_of_subrange(c6, 0, c5, 0, c4.len() as int);
    lemma_subrange_of_subrange(c6, 0, c4, 0, c3.len() as int);
    lemma_subrange_of_subrange(c6, 0, c3, 0, c2.len() as int);
    lemma_subrange_of_subrange(c6, 0, c2, 0, c1.len() as int);
    assert(c1.subrange(0, r0.len() as int) =~= r0);
    assert(c1.subrange(r0.len() as int, c1.len() as int) =~= r1);
    assert(c2.subrange(c1.len() as int, c2.len() as int) =~= r2);
    assert(c3.subrange(c2.len() as int, c3.len() as int) =~= r3);
    assert(c4.subrange(c3.len() as int, c4.len() as int) =~= r4);
    assert(c5.subrange(c4.len() as int, c5.len() as int) =~= r5);
    assert(c6.subrange(c5.len() as int, c6.len() as int) =~= r6);
    lemma_subrange_of_subrange(c6, 0, c1, 0, r0.len() as int);
    lemma_subrange_of_subrange(c6, 0, c1, r0.len() as int, c1.len() as int);
    lemma_subrange_of_subrange(c6, 0, c2, c1.len() as int, c2.len() as int);
    lemma_subrange_of_subrange(c6, 0, c3, c2.len() as int, c3.len() as int);
    lemma_subrange_of_subrange(c6, 0, c4, c3.len() as int, c4.len() as int);
    lemma_subrange_of_subrange(c6, 0, c5, c4.len() as int, c5.len() as int);
    assert(c6.subrange(0, c6.len() as int) =~= c6);
}


/// Element record `i` reads back from the blob.
#[verifier::rlimit(100)]
proof fn lemma_blob_elem_at(a: ElementsMemoryArena, i: int)
    requires
        blob_len(a) <= u32::MAX,
        0 <= i < a.elements@.len(),
    ensures
        20 * i + 20 <= blob_bytes(a).len(),
        spec_elem_at(blob_bytes(a), 20 * i) == a.elements@[i],
{
    let m = blob_bytes(a);
    let r0 = concat_all(elem_chunks(a.elements@));
    lemma_blob_region_slices(a);
    lemma_kid_total_nonneg(a.children@);
    lemma_text_total_nonneg(a.text_strings@);
    lemma_elem_chunks_uniform(a.elements@);
    crate::mem::lemma_concat_mid(elem_chunks(a.elements@), i);
    crate::mem::lemma_lens_sum_uniform(elem_chunks(a.elements@), 20, i);
    lemma_subrange_of_subrange(m, 0, r0, 20 * i, 20 * i + 20);
    lemma_elem_roundtrip(m, 20 * i, a.elements@[i]);
}

/// Pointer-table slot `i` reads back as array `i`'s offset, and that array
/// lies inside the blob.
#[verifier::rlimit(100)]
proof fn lemma_blob_ptr_at(a: ElementsMemoryArena, i: int)
    requires
        blob_len(a) <= u32::MAX,
        0 <= i < a.children@.len(),
    ensures
        ptrs_base(a) + 4 * i + 4 <= blob_bytes(a).len(),
        le32_at(blob_bytes(a), ptrs_base(a) + 4 * i) == arrays_base(a) + 4 * kid_total(
            a.children@.take(i),
        ),
        arrays_base(a) + 4 * kid_total(a.children@.take(i)) + 4 * a.children@[i]@.len()
            <= blob_bytes(a).len(),
        kid_total(a.children@.take(i)) >= 0,
{
    let m = blob_bytes(a);
    let r1 = concat_all(ptr_chunks(a));
    lemma_blob_region_slices(a);
    lemma_kid_total_nonneg(a.children@);
    lemma_text_total_nonneg(a.text_strings@);
    lemma_kid_total_split(a.children@, i);
    assert(a.children@.skip(i)[0] == a.children@[i]);
    assert(kid_total(a.children@.skip(i)) == a.children@[i]@.len() + kid_total(
        a.children@.skip(i).skip(1),
    ));
    lemma_kid_total_nonneg(a.children@.skip(i).skip(1));
    let v = arrays_base(a) + 4 * kid_total(a.children@.take(i));
    assert forall|j: int| 0 <= j < ptr_chunks(a).len() implies (#[trigger] ptr_chunks(a)[j]).len()
        == 4 by {
        assert(ptr_chunks(a)[j] == le32_bytes(arrays_base(a) + 4 * kid_total(
            a.children@.take(j),
        )));
    }
    crate::mem::lemma_concat_mid(ptr_chunks(a), i);
    crate::mem::lemma_lens_sum_uniform(ptr_chunks(a), 4, i);
    assert(ptr_chunks(a)[i] == le32_bytes(v));
    lemma_subrange_of_subrange(m, ptrs_base(a), r1, 4 * i, 4 * i + 4);
    crate::mem::lemma_le32_roundtrip(m, ptrs_base(a) + 4 * i, v);
}

/// Children array `i`'s bytes sit in the blob at its committed offset.
#[verifier::rlimit(100)]
proof fn lemma_blob_array_at(a: ElementsMemoryArena, i: int)
    requires
        blob_len(a) <= u32::MAX,
        0 <= i < a.children@.len(),
    ensures
        kid_total(a.children@.take(i)) >= 0,
        arrays_base(a) + 4 * kid_total(a.children@.take(i)) + 4 * a.children@[i]@.len()
            <= blob_bytes(a).len(),
        blob_bytes(a).subrange(
            arrays_base(a) + 4 * kid_total(a.children@.take(i)),
            arrays_base(a) + 4 * kid_total(a.children@.take(i)) + 4 * a.children@[i]@.len() as int,
        ) == ids_bytes(a.children@[i]@),
{
    let m = blob_bytes(a);
    let r5 = concat_all(array_chunks(a.children@));
    lemma_blob_region_slices(a);
    lemma_kid_total_nonneg(a.children@);
    lemma_text_total_nonneg(a.text_strings@);
    lemma_kid_total_split(a.children@, i);
    assert(a.children@.skip(i)[0] == a.children@[i]);
    assert(kid_total(a.children@.skip(i)) == a.children@[i]@.len() + kid_total(
        a.children@.skip(i).skip(1),
    ));
    lemma_kid_total_nonneg(a.children@.skip(i).skip(1));
    lemma_array_chunks_lens(a.children@);
    crate::mem::lemma_concat_mid(array_chunks(a.children@), i);
    assert(array_chunks(a.children@)[i] == ids_bytes(a.children@[i]@));
    lemma_ids_bytes(a.children@[i]@);
    assert(lens_sum(array_chunks(a.children@).take(i)) == 4 * kid_total(a.children@.take(i)));
    lemma_subrange_of_subrange(m, arrays_base(a), r5, 4 * kid_total(a.children@.take(i)),
        4 * kid_total(a.children@.take(i)) + 4 * a.children@[i]@.len() as int);
}

/// Slot `j` of children array `i` reads back as the stored index.
#[verifier::rlimit(100)]
proof fn lemma_blob_kid_at(a: ElementsMemoryArena, i: int, j: int)
    requires
        blob_len(a) <= u32::MAX,
        0 <= i < a.children@.len(),
        0 <= j < a.children@[i]@.len(),
    ensures
        kid_slot(blob_bytes(a), ptrs_base(a) + 4 * i, j) == a.children@[i]@[j],
{
    let m = blob_bytes(a);
    lemma_blob_ptr_at(a, i);
    lemma_blob_array_at(a, i);
    let v = arrays_base(a) + 4 * kid_total(a.children@.take(i));
    lemma_ids_bytes(a.children@[i]@);
    lemma_subrange_of_subrange(m, v, ids_bytes(a.children@[i]@), 4 * j, 4 * j + 4);
    crate::mem::lemma_le32_roundtrip(m, v + 4 * j, a.children@[i]@[j] as int);
}

/// Text record `i` reads back, and the content bytes it names are content
/// `i`.
#[verifier::rlimit(100)]
proof fn lemma_blob_text_at(a: ElementsMemoryArena, i: int)
    requires
        blob_len(a) <= u32::MAX,
        0 <= i < a.text_strings@.len(),
        a.text_strings@[i]@.len() <= u32::MAX,
    ensures
        text_data_base(a) + 8 * i + 8 <= blob_bytes(a).len(),
        spec_text_rec_at(blob_bytes(a), text_data_base(a) + 8 * i) == (crate::arena::RawTextData {
            content_ptr: (content_base(a) + text_total(a.text_strings@.take(i))) as u32,
            content_len: a.text_strings@[i]@.len() as u32,
        }),
        content_base(a) + text_total(a.text_strings@.take(i)) + a.text_strings@[i]@.len()
            <= blob_bytes(a).len(),
        text_total(a.text_strings@.take(i)) >= 0,
        blob_bytes(a).subrange(
            content_base(a) + text_total(a.text_strings@.take(i)),
            content_base(a) + text_total(a.text_strings@.take(i))
                + a.text_strings@[i]@.len() as int,
        ) == a.text_strings@[i]@,
{
    let m = blob_bytes(a);
    let r2 = concat_all(text_rec_chunks(a));
    let r6 = concat_all(content_chunks(a.text_strings@));
    lemma_blob_region_slices(a);
    lemma_kid_total_nonneg(a.children@);
    lemma_text_total_split(a.text_strings@, i);
    assert(a.text_strings@.skip(i)[0] == a.text_strings@[i]);
    assert(text_total(a.text_strings@.skip(i)) == a.text_strings@[i]@.len() + text_total(
        a.text_strings@.skip(i).skip(1),
    ));
    lemma_text_total_nonneg(a.text_strings@.skip(i).skip(1));
    let cp = content_base(a) + text_total(a.text_strings@.take(i));
    let cl = a.text_strings@[i]@.len() as int;
    let tr = crate::arena::RawTextData {
        content_ptr: cp as u32,
        content_len: a.text_strings@[i]@.len() as u32,
    };
    assert forall|j: int| 0 <= j < text_rec_chunks(a).len() implies (#[trigger] text_rec_chunks(
        a,
    )[j]).len() == 8 by {
        assert(text_rec_chunks(a)[j] == text_rec_bytes(crate::arena::RawTextData {
            content_ptr: (content_base(a) + text_total(a.text_strings@.take(j))) as u32,
            content_len: a.text_strings@[j]@.len() as u32,
        }));
    }
    crate::mem::lemma_concat_mid(text_rec_chunks(a), i);
    crate::mem::lemma_lens_sum_uniform(text_rec_chunks(a), 8, i);
    assert(text_rec_chunks(a)[i] == text_rec_bytes(tr));
    lemma_subrange_of_subrange(m, text_data_base(a), r2, 8 * i, 8 * i + 8);
    lemma_text_rec_roundtrip(m, text_data_base(a) + 8 * i, tr);

    crate::mem::lemma_concat_mid(content_chunks(a.text_strings@), i);
    lemma_content_prefix(a.text_strings@, i);
    assert(content_chunks(a.text_strings@)[i] == a.text_strings@[i]@);
    lemma_subrange_of_subrange(m, content_base(a), r6, text_total(a.text_strings@.take(i)),
        text_total(a.text_strings@.take(i)) + cl);
}

/// Style byte `i` reads back.
#[verifier::rlimit(100)]
proof fn lemma_blob_style_at(a: ElementsMemoryArena, i: int)
    requires
        blob_len(a) <= u32::MAX,
        0 <= i < a.text_style@.len(),
    ensures
        style_base(a) + i + 1 <= blob_bytes(a).len(),
        blob_bytes(a)[style_base(a) + i] == a.text_style@[i].text_color,
{
    let m = blob_bytes(a);
    let r3 = concat_all(style_chunks(a.text_style@));
    lemma_blob_region_slices(a);
    lemma_kid_total_nonneg(a.children@);
    lemma_text_total_nonneg(a.text_strings@);
    lemma_style_chunks_uniform(a.text_style@);
    crate::mem::lemma_concat_mid(style_chunks(a.text_style@), i);
    crate::mem::lemma_lens_sum_uniform(style_chunks(a.text_style@), 1, i);
    lemma_subrange_of_subrange(m, style_base(a), r3, i, i + 1);
    assert(m.subrange(style_base(a) + i, style_base(a) + i + 1)[0] == m[style_base(a) + i]);
    assert(seq![a.text_style@[i].text_color][0] == a.text_style@[i].text_color);
}

/// Slider record `i` reads back.
#[verifier::rlimit(100)]
proof fn lemma_blob_slider_at(a: ElementsMemoryArena, i: int)
    requires
        blob_len(a) <= u32::MAX,
        0 <= i < a.slider_data@.len(),
    ensures
        slider_base(a) + 32 * i + 32 <= blob_bytes(a).len(),
        spec_slider_at(blob_bytes(a), slider_base(a) + 32 * i) == a.slider_data@[i],
{
    let m = blob_bytes(a);
    let r4 = concat_all(slider_chunks(a.slider_data@));
    lemma_blob_region_slices(a);
    lemma_kid_total_nonneg(a.children@);
    lemma_text_total_nonneg(a.text_strings@);
    lemma_slider_chunks_uniform(a.slider_data@);
    crate::mem::lemma_concat_mid(slider_chunks(a.slider_data@), i);
    crate::mem::lemma_lens_sum_uniform(slider_chunks(a.slider_data@), 32, i);
    lemma_subrange_of_subrange(m, slider_base(a), r4, 32 * i, 32 * i + 32);
    lemma_slider_roundtrip(m, slider_base(a) + 32 * i, a.slider_data@[i]);
}

/// The serialized blob contains the arena it was laid out from: everything
/// the decoder reads back matches the tables.
#[verifier::rlimit(100)]
pub proof fn lemma_blob_rep(a: ElementsMemoryArena, head: u32)
    requires
        blob_len(a) <= u32::MAX,
    ensures
        blob_rep(blob_bytes(a), arena_vfd(a, head), a),
{
    let m = blob_bytes(a);
    let d = arena_vfd(a, head);
    lemma_blob_region_slices(a);
    lemma_kid_total_nonneg(a.children@);
    lemma_text_total_nonneg(a.text_strings@);
    assert(d.elements_ptr == 0);
    assert(d.children_ptr == ptrs_base(a));
    assert(d.text_data_ptr == text_data_base(a));
    assert(d.text_style_ptr == style_base(a));
    assert(d.slider_data_ptr == slider_base(a));
    assert forall|i: int| 0 <= i < a.elements@.len() implies rec_off(d.elements_ptr, 20, i) + 20
        <= m.len() && #[trigger] spec_elem_at(m, rec_off(d.elements_ptr, 20, i))
        == a.elements@[i] by {
        lemma_blob_elem_at(a, i);
    }
    assert forall|i: int| 0 <= i < a.children@.len() implies rec_off(d.children_ptr, 4, i) + 4
        <= m.len() && (#[trigger] le32_at(m, rec_off(d.children_ptr, 4, i))) + 4
        * a.children@[i]@.len() <= m.len() by {
        lemma_blob_ptr_at(a, i);
    }
    assert forall|i: int, j: int|
        0 <= i < a.children@.len() && 0 <= j < a.children@[i]@.len() implies #[trigger] kid_slot(
        m,
        rec_off(d.children_ptr, 4, i),
        j,
    ) == a.children@[i]@[j] by {
        lemma_blob_kid_at(a, i, j);
    }
    assert forall|i: int| 0 <= i < a.text_strings@.len() implies rec_off(d.text_data_ptr, 8, i)
        + 8 <= m.len() && {
        let tr = #[trigger] spec_text_rec_at(m, rec_off(d.text_data_ptr, 8, i));
        tr.content_len == a.text_strings@[i]@.len() && tr.content_ptr + tr.content_len <= m.len()
            && m.subrange(tr.content_ptr as int, tr.content_ptr + tr.content_len)
            == a.text_strings@[i]@
    } by {
        lemma_text_total_split(a.text_strings@, i);
        assert(a.text_strings@.skip(i)[0] == a.text_strings@[i]);
        assert(text_total(a.text_strings@.skip(i)) == a.text_strings@[i]@.len() + text_total(
            a.text_strings@.skip(i).skip(1),
        ));
        lemma_text_total_nonneg(a.text_strings@.skip(i).skip(1));
        lemma_blob_text_at(a, i);
    }
    assert forall|i: int| 0 <= i < a.text_style@.len() implies (#[trigger] rec_off(
        d.text_style_ptr,
        1,
        i,
    )) + 1 <= m.len() && m[rec_off(d.text_style_ptr, 1, i)] == a.text_style@[i].text_color by {
        lemma_blob_style_at(a, i);
    }
    assert forall|i: int| 0 <= i < a.slider_data@.len() implies rec_off(d.slider_data_ptr, 32, i)
        + 32 <= m.len() && #[trigger] spec_slider_at(m, rec_off(d.slider_data_ptr, 32, i))
        == a.slider_data@[i] by {
        lemma_blob_slider_at(a, i);
    }
}


/// Round trip: an arena that describes a tree, serialized as `m` describes,
/// decodes back to exactly that tree, starting from any element index that
/// describes it.  With [`lemma_blob_rep`] this closes the loop between the
/// guest encoder and the host decoder.
#[verifier::rlimit(100)]
pub proof fn lemma_arena_round_trip(
    m: Seq<u8>,
    d: ViewFuncData,
    a: ElementsMemoryArena,
    idx: u32,
    t: UiTree,
)
    requires
        blob_rep(m, d, a),
        arena_rep(a, idx, t),
    ensures
        crate::ui::spec_decode_node(m, d, idx) == Ok::<UiTree, WireError>(t),
    decreases idx, 257int,
{
    let e = a.elements@[idx as int];
    assert(spec_elem_at(m, rec_off(d.elements_ptr, 20, idx as int)) == e);
    match t {
        UiTree::Row { children } => {
            lemma_container_round_trip(m, d, a, idx, e, children);
        }
        UiTree::Column { children } => {
            lemma_container_round_trip(m, d, a, idx, e, children);
        }
        UiTree::Stack { children } => {
            lemma_container_round_trip(m, d, a, idx, e, children);
        }
        UiTree::Text { content, color } => {
            let tr = spec_text_rec_at(m, rec_off(d.text_data_ptr, 8, e.data_index as int));
            assert(tr.content_len == a.text_strings@[e.data_index as int]@.len());
            assert(m.subrange(tr.content_ptr as int, tr.content_ptr + tr.content_len) == content);
            if color != 0 {
                assert(m[rec_off(d.text_style_ptr, 1, e.style_index - 1)] == color);
            }
        }
        UiTree::Button { child, callback_id } => {
            let ids = a.children@[e.children_index as int]@;
            assert(le32_at(m, rec_off(d.children_ptr, 4, e.children_index as int)) + 4 * ids.len()
                <= m.len());
            let p = le32_at(m, rec_off(d.children_ptr, 4, e.children_index as int));
            let spec_ids = Seq::new(e.child_count as nat, |j: int| le32_at(m, p + 4 * j) as u32);
            assert forall|j: int| 0 <= j < ids.len() implies spec_ids[j] == ids[j] by {
                assert(kid_slot(m, rec_off(d.children_ptr, 4, e.children_index as int), j)
                    == ids[j]);
            }
            assert(spec_ids =~= ids);
            assert(crate::ui::spec_read_kid_ids(m, d, e) == Ok::<Seq<u32>, WireError>(ids));
            lemma_kids_round_trip(m, d, a, ids, idx, child);
        }
        UiTree::Slider { number_type, range_min, range_max, value, callback_id } => {
            assert(spec_slider_at(m, rec_off(d.slider_data_ptr, 32, e.data_index as int))
                == a.slider_data@[e.data_index as int]);
        }
    }
}

/// Container case of the round trip.
#[verifier::rlimit(100)]
proof fn lemma_container_round_trip(
    m: Seq<u8>,
    d: ViewFuncData,
    a: ElementsMemoryArena,
    idx: u32,
    e: RawElement,
    children: Seq<UiTree>,
)
    requires
        blob_rep(m, d, a),
        idx < a.elements@.len(),
        e == a.elements@[idx as int],
        e.tag == 1 || e.tag == 2 || e.tag == 6,
        container_rep(a, e, idx, children),
    ensures
        e.child_count == 0 ==> children =~= Seq::<UiTree>::empty(),
        e.child_count > 0 ==> crate::ui::spec_read_kid_ids(m, d, e) == Ok::<Seq<u32>, WireError>(
            a.children@[e.children_index as int]@,
        ) && crate::ui::spec_decode_list(m, d, a.children@[e.children_index as int]@, idx)
            == Ok::<Seq<UiTree>, WireError>(children),
    decreases idx, 256int,
{
    if e.child_count == 0 {
        assert(children =~= Seq::<UiTree>::empty());
    } else {
        let ids = a.children@[e.children_index as int]@;
        assert(le32_at(m, rec_off(d.children_ptr, 4, e.children_index as int)) + 4 * ids.len()
            <= m.len());
        let p = le32_at(m, rec_off(d.children_ptr, 4, e.children_index as int));
        let spec_ids = Seq::new(e.child_count as nat, |j: int| le32_at(m, p + 4 * j) as u32);
        assert forall|j: int| 0 <= j < ids.len() implies spec_ids[j] == ids[j] by {
            assert(kid_slot(m, rec_off(d.children_ptr, 4, e.children_index as int), j) == ids[j]);
        }
        assert(spec_ids =~= ids);
        lemma_kids_round_trip(m, d, a, ids, idx, children);
    }
}

/// List case of the round trip.
#[verifier::rlimit(100)]
proof fn lemma_kids_round_trip(
    m: Seq<u8>,
    d: ViewFuncData,
    a: ElementsMemoryArena,
    ids: Seq<u32>,
    bound: u32,
    children: Seq<UiTree>,
)
    requires
        blob_rep(m, d, a),
        kids_rep(a, ids, bound, children),
    ensures
        crate::ui::spec_decode_list(m, d, ids, bound) == Ok::<Seq<UiTree>, WireError>(children),
    decreases bound, ids.len(),
{
    if children.len() == 0 {
        assert(children =~= Seq::<UiTree>::empty());
    } else {
        assert(ids[0] < bound);
        lemma_arena_round_trip(m, d, a, ids[0], children[0]);
        lemma_kids_round_trip(m, d, a, ids.skip(1), bound, children.skip(1));
        assert(seq![children[0]] + children.skip(1) =~= children);
    }
}


/// Appends one element record's 20 wire bytes.
fn push_elem_bytes(out: &mut Vec<u8>, e: &RawElement)
    ensures
        final(out)@ == old(out)@ + elem_bytes(*e),
{
    out.push(e.tag);
    out.push(e.child_count);
    out.push(0u8);
    out.push(0u8);
    crate::mem::push_u32_le(out, e.children_index);
    crate::mem::push_u32_le(out, e.data_index);
    crate::mem::push_u32_le(out, e.callback_index);
    crate::mem::push_u32_le(out, e.style_index);
    assert(out@ =~= old(out)@ + elem_bytes(*e));
}

/// Appends one slider record's 32 wire bytes.
fn push_slider_bytes(out: &mut Vec<u8>, s: &RawSliderData)
    ensures
        final(out)@ == old(out)@ + slider_bytes(*s),
{
    out.push(s.number_type);
    let mut pad: usize = 0;
    while pad < 7
        invariant
            pad <= 7,
            out@ == old(out)@ + slider_bytes(*s).take(1 + pad as int),
        decreases 7 - pad,
    {
        out.push(0u8);
        assert(out@ =~= old(out)@ + slider_bytes(*s).take(1 + (pad + 1) as int));
        pad = pad + 1;
    }
    crate::mem::push_u64_le(out, s.range_min);
    crate::mem::push_u64_le(out, s.range_max);
    crate::mem::push_u64_le(out, s.value);
    assert(out@ =~= old(out)@ + slider_bytes(*s));
}

/// Appends the serialized element table.
#[verifier::loop_isolation(false)]
#[verifier::rlimit(100)]
fn write_elems(out: &mut Vec<u8>, a: &ElementsMemoryArena)
    ensures
        final(out)@ == old(out)@ + concat_all(elem_chunks(a.elements@)),
{
    let ghost pre = out@;
    let mut i: usize = 0;
    while i < a.elements.len()
        invariant
            i <= a.elements@.len(),
            out@ == pre + concat_all(elem_chunks(a.elements@).take(i as int)),
        decreases a.elements@.len() - i,
    {
        push_elem_bytes(out, &a.elements[i]);
        proof {
            crate::mem::lemma_concat_snoc(elem_chunks(a.elements@).take(i as int),
                elem_chunks(a.elements@)[i as int]);
            assert(elem_chunks(a.elements@)[i as int] == elem_bytes(a.elements@[i as int]));
            assert(elem_chunks(a.elements@).take(i as int).push(elem_chunks(a.elements@)[i as int])
                =~= elem_chunks(a.elements@).take(i + 1));
        }
        i = i + 1;
    }
    proof {
        assert(elem_chunks(a.elements@).take(a.elements@.len() as int) =~= elem_chunks(
            a.elements@,
        ));
    }
}

/// Appends the serialized children-pointer table.
#[verifier::loop_isolation(false)]
#[verifier::rlimit(100)]
fn write_ptrs(out: &mut Vec<u8>, a: &ElementsMemoryArena)
    requires
        blob_len(*a) <= u32::MAX,
    ensures
        final(out)@ == old(out)@ + concat_all(ptr_chunks(*a)),
{
    proof {
        lemma_kid_total_nonneg(a.children@);
        lemma_text_total_nonneg(a.text_strings@);
    }
    let ghost pre = out@;
    let arrays_b: u64 = 20 * a.elements.len() as u64 + 4 * a.children.len() as u64
        + 8 * a.text_strings.len() as u64 + a.text_style.len() as u64
        + 32 * a.slider_data.len() as u64;
    assert(arrays_b == arrays_base(*a));
    let mut acc: u64 = 0;
    let mut i: usize = 0;
    while i < a.children.len()
        invariant
            i <= a.children@.len(),
            acc == kid_total(a.children@.take(i as int)),
            0 <= acc,
            arrays_b + 4 * acc <= u32::MAX,
            out@ == pre + concat_all(ptr_chunks(*a).take(i as int)),
        decreases a.children@.len() - i,
    {
        proof {
            lemma_kid_total_split(a.children@, i as int);
            lemma_kid_total_nonneg(a.children@.skip(i as int));
        }
        crate::mem::push_u32_le(out, (arrays_b + 4 * acc) as u32);
        proof {
            crate::mem::lemma_concat_snoc(ptr_chunks(*a).take(i as int), ptr_chunks(*a)[i as int]);
            assert(ptr_chunks(*a)[i as int] == le32_bytes(arrays_base(*a) + 4 * kid_total(
                a.children@.take(i as int),
            )));
            assert(ptr_chunks(*a).take(i as int).push(ptr_chunks(*a)[i as int]) =~= ptr_chunks(
                *a,
            ).take(i + 1));
            lemma_kid_total_snoc(a.children@.take(i as int), a.children@[i as int]);
            assert(a.children@.take(i as int).push(a.children@[i as int]) =~= a.children@.take(
                i + 1,
            ));
            lemma_kid_total_split(a.children@, i + 1);
            lemma_kid_total_nonneg(a.children@.skip(i + 1));
        }
        acc = acc + a.children[i].len() as u64;
        i = i + 1;
    }
    proof {
        assert(ptr_chunks(*a).take(a.children@.len() as int) =~= ptr_chunks(*a));
    }
}

/// Appends the serialized text payload-record table.
#[verifier::loop_isolation(false)]
#[verifier::rlimit(100)]
fn write_text_recs(out: &mut Vec<u8>, a: &ElementsMemoryArena)
    requires
        blob_len(*a) <= u32::MAX,
    ensures
        final(out)@ == old(out)@ + concat_all(text_rec_chunks(*a)),
{
    proof {
        lemma_kid_total_nonneg(a.children@);
        lemma_text_total_nonneg(a.text_strings@);
    }
    let ghost pre = out@;
    let content_b: u64 = 20 * a.elements.len() as u64 + 4 * a.children.len() as u64
        + 8 * a.text_strings.len() as u64 + a.text_style.len() as u64
        + 32 * a.slider_data.len() as u64 + 4 * kid_total_exec(&a.children);
    assert(content_b == content_base(*a));
    let mut acc: u64 = 0;
    let mut i: usize = 0;
    while i < a.text_strings.len()
        invariant
            i <= a.text_strings@.len(),
            acc == text_total(a.text_strings@.take(i as int)),
            0 <= acc,
            content_b + acc <= u32::MAX,
            content_b == content_base(*a),
            out@ == pre + concat_all(text_rec_chunks(*a).take(i as int)),
        decreases a.text_strings@.len() - i,
    {
        proof {
            lemma_text_total_split(a.text_strings@, i as int);
            lemma_text_total_nonneg(a.text_strings@.skip(i as int));
            assert(a.text_strings@.skip(i as int)[0] == a.text_strings@[i as int]);
            assert(text_total(a.text_strings@.skip(i as int)) == a.text_strings@[i as int]@.len()
                + text_total(a.text_strings@.skip(i as int).skip(1)));
            lemma_text_total_nonneg(a.text_strings@.skip(i as int).skip(1));
        }
        crate::mem::push_u32_le(out, (content_b + acc) as u32);
        crate::mem::push_u32_le(out, a.text_strings[i].len() as u32);
        proof {
            crate::mem::lemma_concat_snoc(text_rec_chunks(*a).take(i as int),
                text_rec_chunks(*a)[i as int]);
            assert(text_rec_chunks(*a)[i as int] == text_rec_bytes(crate::arena::RawTextData {
                content_ptr: (content_base(*a) + text_total(a.text_strings@.take(i as int)))
                    as u32,
                content_len: a.text_strings@[i as int]@.len() as u32,
            }));
            assert(text_rec_chunks(*a).take(i as int).push(text_rec_chunks(*a)[i as int])
                =~= text_rec_chunks(*a).take(i + 1));
            lemma_text_total_snoc(a.text_strings@.take(i as int), a.text_strings@[i as int]);
            assert(a.text_strings@.take(i as int).push(a.text_strings@[i as int])
                =~= a.text_strings@.take(i + 1));
            lemma_text_total_split(a.text_strings@, i + 1);
            lemma_text_total_nonneg(a.text_strings@.skip(i + 1));
        }
        acc = acc + a.text_strings[i].len() as u64;
        i = i + 1;
    }
    proof {
        assert(text_rec_chunks(*a).take(a.text_strings@.len() as int) =~= text_rec_chunks(*a));
    }
}

/// Sums the committed children index counts, capped by the blob bound.
#[verifier::loop_isolation(false)]
#[verifier::rlimit(100)]
fn kid_total_exec(children: &Vec<Vec<u32>>) -> (r: u64)
    requires
        4 * kid_total(children@) <= u32::MAX,
    ensures
        r == kid_total(children@),
{
    proof {
        lemma_kid_total_nonneg(children@);
    }
    let mut acc: u64 = 0;
    let mut i: usize = 0;
    while i < children.len()
        invariant
            i <= children@.len(),
            acc == kid_total(children@.take(i as int)),
            0 <= acc <= kid_total(children@),
        decreases children@.len() - i,
    {
        proof {
            lemma_kid_total_snoc(children@.take(i as int), children@[i as int]);
            assert(children@.take(i as int).push(children@[i as int]) =~= children@.take(i + 1));
            lemma_kid_total_split(children@, i + 1);
            lemma_kid_total_nonneg(children@.skip(i + 1));
        }
        acc = acc + children[i].len() as u64;
        i = i + 1;
    }
    proof {
        assert(children@.take(children@.len() as int) =~= children@);
    }
    acc
}

/// Appends the serialized style table.
#[verifier::loop_isolation(false)]
#[verifier::rlimit(100)]
fn write_styles(out: &mut Vec<u8>, styles: &Vec<RawStyle>)
    ensures
        final(out)@ == old(out)@ + concat_all(style_chunks(styles@)),
{
    let ghost pre = out@;
    let mut i: usize = 0;
    while i < styles.len()
        invariant
            i <= styles@.len(),
            out@ == pre + concat_all(style_chunks(styles@).take(i as int)),
        decreases styles@.len() - i,
    {
        out.push(styles[i].text_color);
        proof {
            crate::mem::lemma_concat_snoc(style_chunks(styles@).take(i as int),
                style_chunks(styles@)[i as int]);
            assert(style_chunks(styles@)[i as int] == seq![styles@[i as int].text_color]);
            assert(style_chunks(styles@).take(i as int).push(style_chunks(styles@)[i as int])
                =~= style_chunks(styles@).take(i + 1));
            assert(out@ =~= pre + concat_all(style_chunks(styles@).take(i + 1)));
        }
        i = i + 1;
    }
    proof {
        assert(style_chunks(styles@).take(styles@.len() as int) =~= style_chunks(styles@));
    }
}

/// Appends the serialized slider table.
#[verifier::loop_isolation(false)]
#[verifier::rlimit(100)]
fn write_sliders(out: &mut Vec<u8>, sliders: &Vec<RawSliderData>)
    ensures
        final(out)@ == old(out)@ + concat_all(slider_chunks(sliders@)),
{
    let ghost pre = out@;
    let mut i: usize = 0;
    while i < sliders.len()
        invariant
            i <= sliders@.len(),
            out@ == pre + concat_all(slider_chunks(sliders@).take(i as int)),
        decreases sliders@.len() - i,
    {
        push_slider_bytes(out, &sliders[i]);
        proof {
            crate::mem::lemma_concat_snoc(slider_chunks(sliders@).take(i as int),
                slider_chunks(sliders@)[i as int]);
            assert(slider_chunks(sliders@)[i as int] == slider_bytes(sliders@[i as int]));
            assert(slider_chunks(sliders@).take(i as int).push(slider_chunks(sliders@)[i as int])
                =~= slider_chunks(sliders@).take(i + 1));
        }
        i = i + 1;
    }
    proof {
        assert(slider_chunks(sliders@).take(sliders@.len() as int) =~= slider_chunks(sliders@));
    }
}

/// Appends the children index arrays.
#[verifier::loop_isolation(false)]
#[verifier::rlimit(100)]
fn write_arrays(out: &mut Vec<u8>, children: &Vec<Vec<u32>>)
    ensures
        final(out)@ == old(out)@ + concat_all(array_chunks(children@)),
{
    let ghost pre = out@;
    let mut i: usize = 0;
    while i < children.len()
        invariant
            i <= children@.len(),
            out@ == pre + concat_all(array_chunks(children@).take(i as int)),
        decreases children@.len() - i,
    {
        let ghost outer_pre = out@;
        let ids = &children[i];
        let mut j: usize = 0;
        while j < ids.len()
            invariant
                j <= ids@.len(),
                ids@ == children@[i as int]@,
                out@ == outer_pre + concat_all(ids@.map_values(|v: u32| le32_bytes(
                    v as int,
                )).take(j as int)),
            decreases ids@.len() - j,
        {
            crate::mem::push_u32_le(out, ids[j]);
            proof {
                let cs = ids@.map_values(|v: u32| le32_bytes(v as int));
                crate::mem::lemma_concat_snoc(cs.take(j as int), cs[j as int]);
                assert(cs[j as int] == le32_bytes(ids@[j as int] as int));
                assert(cs.take(j as int).push(cs[j as int]) =~= cs.take(j + 1));
            }
            j = j + 1;
        }
        proof {
            let cs = ids@.map_values(|v: u32| le32_bytes(v as int));
            assert(cs.take(ids@.len() as int) =~= cs);
            assert(out@ == outer_pre + ids_bytes(ids@));
            crate::mem::lemma_concat_snoc(array_chunks(children@).take(i as int),
                array_chunks(children@)[i as int]);
            assert(array_chunks(children@)[i as int] == ids_bytes(children@[i as int]@));
            assert(array_chunks(children@).take(i as int).push(array_chunks(children@)[i as int])
                =~= array_chunks(children@).take(i + 1));
        }
        i = i + 1;
    }
    proof {
        assert(array_chunks(children@).take(children@.len() as int) =~= array_chunks(children@));
    }
}

/// Appends the text content bytes.
#[verifier::loop_isolation(false)]
#[verifier::rlimit(100)]
fn write_contents(out: &mut Vec<u8>, texts: &Vec<Vec<u8>>)
    ensures
        final(out)@ == old(out)@ + concat_all(content_chunks(texts@)),
{
    let ghost pre = out@;
    let mut i: usize = 0;
    while i < texts.len()
        invariant
            i <= texts@.len(),
            out@ == pre + concat_all(content_chunks(texts@).take(i as int)),
        decreases texts@.len() - i,
    {
        crate::mem::push_bytes(out, &texts[i]);
        proof {
            crate::mem::lemma_concat_snoc(content_chunks(texts@).take(i as int),
                content_chunks(texts@)[i as int]);
            assert(content_chunks(texts@)[i as int] == texts@[i as int]@);
            assert(content_chunks(texts@).take(i as int).push(content_chunks(texts@)[i as int])
                =~= content_chunks(texts@).take(i + 1));
        }
        i = i + 1;
    }
    proof {
        assert(content_chunks(texts@).take(texts@.len() as int) =~= content_chunks(texts@));
    }
}

/// Lays the arena's tables out as one byte blob in the wire layout the
/// host decoder reads, and returns the table-offset record naming `head`
/// as the root element.  Fails exactly when the blob would not fit 32-bit
/// offsets.
#[verifier::loop_isolation(false)]
#[verifier::rlimit(100)]
pub fn serialize_arena(a: &ElementsMemoryArena, head: u32) -> (r: Result<
    (Vec<u8>, ViewFuncData),
    WireError,
>)
    ensures
        match r {
            Ok((m, d)) => blob_len(*a) <= u32::MAX && m@ == blob_bytes(*a) && d == arena_vfd(
                *a,
                head,
            ) && blob_rep(m@, d, *a),
            Err(e) => e == WireError::ArenaTooLarge && blob_len(*a) > u32::MAX,
        },
{
    proof {
        lemma_kid_total_nonneg(a.children@);
        lemma_text_total_nonneg(a.text_strings@);
    }
    let cap: u64 = 0xFFFF_FFFFu64;
    if a.elements.len() as u64 > cap || a.children.len() as u64 > cap
        || a.text_strings.len() as u64 > cap || a.text_style.len() as u64 > cap
        || a.slider_data.len() as u64 > cap {
        return Err(WireError::ArenaTooLarge);
    }

    let mut kt: u64 = 0;
    let mut i: usize = 0;
    while i < a.children.len()
        invariant
            i <= a.children@.len(),
            kt == kid_total(a.children@.take(i as int)),
            kt <= cap,
        decreases a.children@.len() - i,
    {
        proof {
            lemma_kid_total_snoc(a.children@.take(i as int), a.children@[i as int]);
            assert(a.children@.take(i as int).push(a.children@[i as int]) =~= a.children@.take(
                i + 1,
            ));
        }
        let l = a.children[i].len();
        if l as u64 > cap || kt + l as u64 > cap {
            proof {
                lemma_kid_total_split(a.children@, i + 1);
                lemma_kid_total_nonneg(a.children@.skip(i + 1));
            }
            return Err(WireError::ArenaTooLarge);
        }
        kt = kt + l as u64;
        i = i + 1;
    }
    proof {
        assert(a.children@.take(a.children@.len() as int) =~= a.children@);
    }

    let mut tt: u64 = 0;
    let mut i: usize = 0;
    while i < a.text_strings.len()
        invariant
            i <= a.text_strings@.len(),
            tt == text_total(a.text_strings@.take(i as int)),
            tt <= cap,
        decreases a.text_strings@.len() - i,
    {
        proof {
            lemma_text_total_snoc(a.text_strings@.take(i as int), a.text_strings@[i as int]);
            assert(a.text_strings@.take(i as int).push(a.text_strings@[i as int])
                =~= a.text_strings@.take(i + 1));
        }
        let l = a.text_strings[i].len();
        if l as u64 > cap || tt + l as u64 > cap {
            proof {
                lemma_text_total_split(a.text_strings@, i + 1);
                lemma_text_total_nonneg(a.text_strings@.skip(i + 1));
            }
            return Err(WireError::ArenaTooLarge);
        }
        tt = tt + l as u64;
        i = i + 1;
    }
    proof {
        assert(a.text_strings@.take(a.text_strings@.len() as int) =~= a.text_strings@);
    }

    let ne = a.elements.len() as u64;
    let nc = a.children.len() as u64;
    let nt = a.text_strings.len() as u64;
    let nst = a.text_style.len() as u64;
    let nsl = a.slider_data.len() as u64;
    let total: u64 = 20 * ne + 4 * nc + 8 * nt + nst + 32 * nsl + 4 * kt + tt;
    if total > cap {
        return Err(WireError::ArenaTooLarge);
    }
    assert(total == blob_len(*a));

    let d = ViewFuncData {
        head_index: head,
        elements_ptr: 0,
        children_ptr: (20 * ne) as u32,
        text_data_ptr: (20 * ne + 4 * nc) as u32,
        text_style_ptr: (20 * ne + 4 * nc + 8 * nt) as u32,
        slider_data_ptr: (20 * ne + 4 * nc + 8 * nt + nst) as u32,
    };
    assert(d == arena_vfd(*a, head));

    let mut out: Vec<u8> = Vec::new();
    write_elems(&mut out, a);
    write_ptrs(&mut out, a);
    write_text_recs(&mut out, a);
    write_styles(&mut out, &a.text_style);
    write_sliders(&mut out, &a.slider_data);
    write_arrays(&mut out, &a.children);
    write_contents(&mut out, &a.text_strings);
    proof {
        assert(out@ =~= blob_bytes(*a));
        lemma_blob_rep(*a, head);
    }
    Ok((out, d))
}

/// Builds the whole render output for one widget tree: flatten the tree
/// into a fresh arena, then lay the arena out as wire bytes.  On success
/// the returned blob decodes, at the returned record's head index, to
/// exactly the tree that was built.  Succeeds whenever the tree is
/// encodable — containers within the 255-child limit, text well-formed
/// UTF-8 — and its serialized form fits 32-bit offsets; each failure
/// names its cause.
#[verifier::rlimit(100)]
pub fn view_build_ui(root: &WasmUiNode) -> (r: Result<(Vec<u8>, ViewFuncData), WireError>)
    ensures
        match r {
            Ok((m, d)) => crate::ui::spec_decode_node(m@, d, d.head_index) == Ok::<
                UiTree,
                WireError,
            >(node_view(*root)),
            Err(e) => {
                &&& (e == WireError::ArenaTooLarge || e == WireError::BadChildCount || e
                    == WireError::InvalidTextEncoding)
                &&& (e == WireError::BadChildCount ==> !tree_arity_ok(node_view(*root)))
                &&& (e == WireError::InvalidTextEncoding ==> !tree_text_ok(node_view(*root)))
                &&& (e == WireError::ArenaTooLarge ==> tree_blob_len(node_view(*root))
                    > u32::MAX)
            },
        },
        tree_arity_ok(node_view(*root)) && tree_text_ok(node_view(*root)) && tree_blob_len(
            node_view(*root),
        ) <= u32::MAX ==> r is Ok,
{
    let ghost t = node_view(*root);
    let ghost fp = tree_footprint(t);
    let mut arena = ElementsMemoryArena::new();
    let ghost arena0 = arena;
    proof {
        lemma_tree_fp_nonneg(t);
    }
    let head = match push_node(&mut arena, root) {
        Ok(h) => h,
        Err(e) => {
            proof {
                if e == WireError::ArenaTooLarge {
                    assert(!arena_fits(arena0, fp));
                    assert(tree_blob_len(t) > u32::MAX);
                }
            }
            return Err(e);
        }
    };
    proof {
        assert(arena_grown(arena0, arena, fp));
        assert(kid_total(arena0.children@) == 0);
        assert(text_total(arena0.text_strings@) == 0);
        assert(blob_len(arena) == tree_blob_len(t));
    }
    match serialize_arena(&arena, head) {
        Ok((m, d)) => {
            proof {
                lemma_arena_round_trip(m@, d, arena, head, node_view(*root));
            }
            Ok((m, d))
        }
        Err(e) => {
            proof {
                assert(tree_blob_len(t) > u32::MAX);
            }
            Err(e)
        }
    }
}

} // verus!
