//! Widget-tree arena: guest-side encoding, host-side decoding, round trip.

use aurorashell::WireError;
use aurorashell::arena::{SliderNumberType, ViewFuncData, WasmUiNode};
use aurorashell::ui::{build_tree, get_element_tree};
use aurorashell::view::view_build_ui;

fn sample_tree() -> WasmUiNode {
    // Depth >= 3 with every node kind represented.
    WasmUiNode::Row {
        children: vec![
            WasmUiNode::Column {
                children: vec![
                    WasmUiNode::Text { content: b"volume".to_vec(), color: 7 },
                    WasmUiNode::Button {
                        inner: Box::new(WasmUiNode::Text { content: b"mute".to_vec(), color: 0 }),
                        callback_id: 1,
                    },
                    WasmUiNode::Slider {
                        number_type: SliderNumberType::F64,
                        range_min: 0,
                        range_max: 0x3FF0_0000_0000_0000,
                        value: 0x3FE0_0000_0000_0000,
                        callback_id: 2,
                    },
                ],
            },
            WasmUiNode::Stack {
                children: vec![WasmUiNode::Text { content: b"overlay".to_vec(), color: 0 }],
            },
        ],
    }
}

#[test]
fn arena_round_trip_preserves_structure() {
    let tree = sample_tree();
    let (blob, vfd) = view_build_ui(&tree).unwrap();
    let decoded = build_tree(&blob, &vfd, vfd.head_index).unwrap();
    assert_eq!(decoded, tree);
}

#[test]
fn arena_round_trip_single_leaf() {
    let tree = WasmUiNode::Text { content: b"hi".to_vec(), color: 3 };
    let (blob, vfd) = view_build_ui(&tree).unwrap();
    let decoded = build_tree(&blob, &vfd, vfd.head_index).unwrap();
    assert_eq!(decoded, tree);
}

#[test]
fn arena_round_trip_empty_container() {
    let tree = WasmUiNode::Column { children: vec![] };
    let (blob, vfd) = view_build_ui(&tree).unwrap();
    let decoded = build_tree(&blob, &vfd, vfd.head_index).unwrap();
    assert_eq!(decoded, tree);
}

#[test]
fn arena_round_trip_slider_kinds() {
    for nt in [SliderNumberType::I32, SliderNumberType::F32, SliderNumberType::F64] {
        let tree = WasmUiNode::Slider {
            number_type: nt,
            range_min: 1,
            range_max: 100,
            value: 42,
            callback_id: 9,
        };
        let (blob, vfd) = view_build_ui(&tree).unwrap();
        let decoded = build_tree(&blob, &vfd, vfd.head_index).unwrap();
        assert_eq!(decoded, tree);
    }
}

#[test]
fn get_element_tree_reads_record_from_memory() {
    let tree = sample_tree();
    let (mut memory, vfd) = view_build_ui(&tree).unwrap();
    // Place the render-output record itself in memory, as a module would,
    // and hand the host its offset.
    let offset = memory.len() as u32;
    for field in [
        vfd.head_index,
        vfd.elements_ptr,
        vfd.children_ptr,
        vfd.text_data_ptr,
        vfd.text_style_ptr,
        vfd.slider_data_ptr,
    ] {
        memory.extend_from_slice(&field.to_le_bytes());
    }
    let (decoded, d) = get_element_tree(&memory, offset).unwrap();
    assert_eq!(d, vfd);
    assert_eq!(decoded, tree);
}

#[test]
fn get_element_tree_out_of_bounds_record() {
    let memory = vec![0u8; 10];
    assert_eq!(get_element_tree(&memory, 0), Err(WireError::OutOfBounds));
}

#[test]
fn truncated_blob_fails_decode() {
    let tree = sample_tree();
    let (blob, vfd) = view_build_ui(&tree).unwrap();
    let half: Vec<u8> = blob[..blob.len() / 2].to_vec();
    assert!(build_tree(&half, &vfd, vfd.head_index).is_err());
}

fn push_element(
    bytes: &mut Vec<u8>,
    tag: u8,
    child_count: u8,
    children_index: u32,
    data_index: u32,
    callback_id: u32,
    style_index: u32,
) {
    bytes.push(tag);
    bytes.push(child_count);
    bytes.push(0);
    bytes.push(0);
    bytes.extend_from_slice(&children_index.to_le_bytes());
    bytes.extend_from_slice(&data_index.to_le_bytes());
    bytes.extend_from_slice(&callback_id.to_le_bytes());
    bytes.extend_from_slice(&style_index.to_le_bytes());
}

#[test]
fn self_referencing_child_is_rejected() {
    // One row element whose single child index names itself: a cycle the
    // decoder must refuse rather than chase.
    let mut memory = Vec::new();
    push_element(&mut memory, 1, 1, 0, 0, 0, 0);
    let ptr_table = memory.len() as u32;
    memory.extend_from_slice(&24u32.to_le_bytes());
    memory.extend_from_slice(&0u32.to_le_bytes());
    let vfd = ViewFuncData {
        head_index: 0,
        elements_ptr: 0,
        children_ptr: ptr_table,
        text_data_ptr: 0,
        text_style_ptr: 0,
        slider_data_ptr: 0,
    };
    assert_eq!(
        build_tree(&memory, &vfd, 0),
        Err(WireError::MalformedChildIndex)
    );
}

#[test]
fn unknown_element_tag_is_rejected() {
    let mut memory = Vec::new();
    push_element(&mut memory, 9, 0, 0, 0, 0, 0);
    let vfd = ViewFuncData {
        head_index: 0,
        elements_ptr: 0,
        children_ptr: 0,
        text_data_ptr: 0,
        text_style_ptr: 0,
        slider_data_ptr: 0,
    };
    assert_eq!(
        build_tree(&memory, &vfd, 0),
        Err(WireError::UnknownElementTag(9))
    );
}

#[test]
fn unknown_slider_number_type_is_rejected() {
    let mut memory = Vec::new();
    push_element(&mut memory, 5, 0, 0, 0, 0, 0);
    let slider_table = memory.len() as u32;
    memory.push(7);
    memory.extend_from_slice(&[0u8; 7]);
    memory.extend_from_slice(&0u64.to_le_bytes());
    memory.extend_from_slice(&0u64.to_le_bytes());
    memory.extend_from_slice(&0u64.to_le_bytes());
    let vfd = ViewFuncData {
        head_index: 0,
        elements_ptr: 0,
        children_ptr: 0,
        text_data_ptr: 0,
        text_style_ptr: 0,
        slider_data_ptr: slider_table,
    };
    assert_eq!(
        build_tree(&memory, &vfd, 0),
        Err(WireError::UnknownSliderType(7))
    );
}

#[test]
fn button_without_exactly_one_child_is_rejected() {
    let mut memory = Vec::new();
    push_element(&mut memory, 4, 0, 0, 0, 5, 0);
    let vfd = ViewFuncData {
        head_index: 0,
        elements_ptr: 0,
        children_ptr: 0,
        text_data_ptr: 0,
        text_style_ptr: 0,
        slider_data_ptr: 0,
    };
    assert_eq!(build_tree(&memory, &vfd, 0), Err(WireError::BadChildCount));
}

#[test]
fn callback_ids_survive_the_round_trip() {
    let tree = WasmUiNode::Button {
        inner: Box::new(WasmUiNode::Text { content: b"ok".to_vec(), color: 0 }),
        callback_id: 77,
    };
    let (blob, vfd) = view_build_ui(&tree).unwrap();
    match build_tree(&blob, &vfd, vfd.head_index).unwrap() {
        WasmUiNode::Button { callback_id, .. } => assert_eq!(callback_id, 77),
        other => panic!("expected a button, got {:?}", other),
    }
}

#[test]
fn zero_child_container_ignores_its_children_index() {
    // An element without children never dereferences its children index,
    // even when that index points far past the buffer.
    let mut memory = Vec::new();
    push_element(&mut memory, 2, 0, 0xFFFF_FFFF, 0, 0, 0);
    let vfd = ViewFuncData {
        head_index: 0,
        elements_ptr: 0,
        children_ptr: 0,
        text_data_ptr: 0,
        text_style_ptr: 0,
        slider_data_ptr: 0,
    };
    assert_eq!(
        build_tree(&memory, &vfd, 0),
        Ok(WasmUiNode::Column { children: vec![] })
    );
}

#[test]
fn invalid_utf8_text_is_rejected_by_the_decoder() {
    // One text element whose content bytes are not well-formed UTF-8.
    let mut memory = Vec::new();
    push_element(&mut memory, 3, 0, 0, 0, 0, 0);
    let text_table = memory.len() as u32;
    let content_ptr = text_table + 8;
    memory.extend_from_slice(&content_ptr.to_le_bytes());
    memory.extend_from_slice(&2u32.to_le_bytes());
    memory.extend_from_slice(&[0xFF, 0x20]);
    let vfd = ViewFuncData {
        head_index: 0,
        elements_ptr: 0,
        children_ptr: 0,
        text_data_ptr: text_table,
        text_style_ptr: 0,
        slider_data_ptr: 0,
    };
    assert_eq!(
        build_tree(&memory, &vfd, 0),
        Err(WireError::InvalidTextEncoding)
    );
}

#[test]
fn invalid_utf8_text_is_rejected_by_the_encoder() {
    let tree = WasmUiNode::Text { content: vec![0xC0, 0xAF], color: 0 };
    assert_eq!(view_build_ui(&tree), Err(WireError::InvalidTextEncoding));
}

#[test]
fn multibyte_utf8_round_trips() {
    let tree = WasmUiNode::Text {
        content: "caf\u{e9} \u{2713} \u{1F5A5}".as_bytes().to_vec(),
        color: 2,
    };
    let (blob, vfd) = view_build_ui(&tree).unwrap();
    assert_eq!(build_tree(&blob, &vfd, vfd.head_index).unwrap(), tree);
}

#[test]
fn oversize_container_is_rejected_by_the_encoder() {
    let mut children = Vec::new();
    for _ in 0..256 {
        children.push(WasmUiNode::Text { content: b"x".to_vec(), color: 0 });
    }
    let tree = WasmUiNode::Row { children };
    assert_eq!(view_build_ui(&tree), Err(WireError::BadChildCount));

    let mut children = Vec::new();
    for _ in 0..255 {
        children.push(WasmUiNode::Text { content: b"x".to_vec(), color: 0 });
    }
    let tree = WasmUiNode::Row { children };
    assert!(view_build_ui(&tree).is_ok());
}
