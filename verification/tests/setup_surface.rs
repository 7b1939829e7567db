//! Setup-output and layer-surface decoding, end to end against a
//! hand-laid guest memory image.

use aurorashell::register::{Interval, IntoRegister, PulseAudio, Registers};
use aurorashell::setup::{decode_setup_output, read_setup_func_data};
use aurorashell::subscription::{AudioRegisterData, Register as HostRegister};
use aurorashell::surface::{
    Anchor, Id, KeyboardInteractivity, Layer, LayerSurface, LayerSurfaceRaw, LimitsBits, Margin,
    decode_layer_surface, i32_from_u32,
};

#[test]
fn i32_bit_patterns() {
    assert_eq!(i32_from_u32(0), 0);
    assert_eq!(i32_from_u32(5), 5);
    assert_eq!(i32_from_u32(0xFFFF_FFFF), -1);
    assert_eq!(i32_from_u32(0x8000_0000), i32::MIN);
    assert_eq!(i32_from_u32(0x7FFF_FFFF), i32::MAX);
}

#[test]
fn layer_surface_to_raw_size_flags() {
    let base = LayerSurface {
        id: Id(4),
        layer: Layer::Top,
        anchor: Anchor::all(),
        size: None,
        margin: Margin { top: 1, right: 2, bottom: 3, left: 4 },
        limits: LimitsBits {
            min_width_bits: 10,
            max_width_bits: 20,
            min_height_bits: 30,
            max_height_bits: 40,
        },
        exclusive_zone: -1,
        keyboard_interactivity: KeyboardInteractivity::NoInput,
        pointer_interactivity: true,
    };
    let raw = base.to_raw(100, 200);
    assert_eq!(raw.size_flags, 0);
    assert_eq!((raw.id, raw.layer, raw.anchor), (4, 2, 0b1111));
    assert_eq!((raw.margin_ptr, raw.limits_ptr), (100, 200));
    assert_eq!(raw.pointer_interactivity, 1);

    let sized = LayerSurface { size: Some((Some(640), None)), ..base };
    let raw = sized.to_raw(0, 0);
    assert_eq!(raw.size_flags, 0b011);
    assert_eq!((raw.size_x, raw.size_y), (640, 0));

    let full = LayerSurface { size: Some((Some(640), Some(480))), ..base };
    assert_eq!(full.to_raw(0, 0).size_flags, 0b111);
}

fn memory_with_margin_and_limits() -> Vec<u8> {
    let mut m = Vec::new();
    // margin record at 0: 4 x i32, little-endian
    for v in [5i32, -6, 7, -8] {
        m.extend_from_slice(&v.to_le_bytes());
    }
    // limits record at 16: 4 x 32-bit patterns
    for v in [1u32, 1920, 1, 1080] {
        m.extend_from_slice(&v.to_le_bytes());
    }
    m
}

#[test]
fn decode_layer_surface_reads_margin_and_limits() {
    let memory = memory_with_margin_and_limits();
    let raw = LayerSurfaceRaw {
        id: 1,
        layer: 3,
        anchor: 0b0101,
        size_flags: 0b101,
        size_x: 11,
        size_y: 22,
        margin_ptr: 0,
        limits_ptr: 16,
        exclusive_zone: -3,
        keyboard_interactivity: 2,
        pointer_interactivity: 0,
    };
    let p = decode_layer_surface(&memory, &raw).unwrap();
    assert_eq!(p.layer, Layer::Overlay);
    assert_eq!(p.anchor, Anchor(0b0101));
    assert_eq!(p.size, Some((None, Some(22))));
    assert_eq!(p.margin, Margin { top: 5, right: -6, bottom: 7, left: -8 });
    assert_eq!(p.limits.max_width_bits, 1920);
    assert_eq!(p.exclusive_zone, -3);
    assert_eq!(p.keyboard_interactivity, KeyboardInteractivity::OnDemand);
    assert!(!p.pointer_interactivity);
}

#[test]
fn decode_layer_surface_rejects_bad_fields() {
    let memory = memory_with_margin_and_limits();
    let good = LayerSurfaceRaw {
        id: 1,
        layer: 0,
        anchor: 0,
        size_flags: 0,
        size_x: 0,
        size_y: 0,
        margin_ptr: 0,
        limits_ptr: 16,
        exclusive_zone: 0,
        keyboard_interactivity: 0,
        pointer_interactivity: 0,
    };
    assert!(decode_layer_surface(&memory, &good).is_some());
    assert!(decode_layer_surface(&memory, &LayerSurfaceRaw { layer: 4, ..good }).is_none());
    assert!(decode_layer_surface(&memory, &LayerSurfaceRaw { anchor: 0b1_0000, ..good }).is_none());
    assert!(
        decode_layer_surface(&memory, &LayerSurfaceRaw { keyboard_interactivity: 3, ..good })
            .is_none()
    );
    assert!(
        decode_layer_surface(&memory, &LayerSurfaceRaw { pointer_interactivity: 2, ..good })
            .is_none()
    );
    // Margin or limits record past the end of memory.
    assert!(decode_layer_surface(&memory, &LayerSurfaceRaw { margin_ptr: 20, ..good }).is_none());
    assert!(decode_layer_surface(&memory, &LayerSurfaceRaw { limits_ptr: 17, ..good }).is_none());
}

#[test]
fn decode_setup_output_end_to_end() {
    // Lay out a guest memory image the way a module's setup would:
    // name bytes, one raw surface record, the serialized register table,
    // and finally the setup record naming them all.
    let mut memory = memory_with_margin_and_limits();

    let name_ptr = memory.len() as u32;
    let name = b"statusbar";
    memory.extend_from_slice(name);

    let surface = LayerSurface {
        id: Id(1),
        layer: Layer::Top,
        anchor: Anchor::none(),
        size: None,
        margin: Margin { top: 0, right: 0, bottom: 0, left: 0 },
        limits: LimitsBits {
            min_width_bits: 0,
            max_width_bits: 0,
            min_height_bits: 0,
            max_height_bits: 0,
        },
        exclusive_zone: 0,
        keyboard_interactivity: KeyboardInteractivity::NoInput,
        pointer_interactivity: true,
    };
    let raw = surface.to_raw(0, 16);
    let surfaces_ptr = memory.len() as u32;
    memory.extend_from_slice(&raw.id.to_le_bytes());
    memory.push(raw.layer);
    memory.push(raw.anchor);
    memory.push(raw.size_flags);
    memory.push(0);
    memory.extend_from_slice(&raw.size_x.to_le_bytes());
    memory.extend_from_slice(&raw.size_y.to_le_bytes());
    memory.extend_from_slice(&raw.margin_ptr.to_le_bytes());
    memory.extend_from_slice(&raw.limits_ptr.to_le_bytes());
    memory.extend_from_slice(&raw.exclusive_zone.to_le_bytes());
    memory.push(raw.keyboard_interactivity);
    memory.push(raw.pointer_interactivity);
    memory.extend_from_slice(&[0u8, 0]);

    let table = Registers::from_macro(vec![
        Interval::from_millis(1000).into_register(),
        PulseAudio(0b101).into_register(),
    ])
    .serialize()
    .unwrap();
    let registers_ptr = memory.len() as u32;
    memory.extend_from_slice(&table);

    let record_offset = memory.len() as u32;
    for field in [name_ptr, name.len() as u32, surfaces_ptr, 1u32, registers_ptr] {
        memory.extend_from_slice(&field.to_le_bytes());
    }

    let sfd = read_setup_func_data(&memory, record_offset).unwrap();
    assert_eq!(sfd.module_name_ptr, name_ptr);
    assert_eq!(sfd.layer_surfaces_len, 1);

    let out = decode_setup_output(&memory, record_offset).unwrap();
    assert_eq!(out.module_name, name.to_vec());
    assert_eq!(out.layer_surfaces.len(), 1);
    assert_eq!(out.layer_surfaces[0], raw);
    assert_eq!(
        out.registers,
        vec![
            HostRegister::Interval { milliseconds: 1000, offset: 0 },
            HostRegister::PulseAudio { pulseaudio: AudioRegisterData(0b101) },
        ]
    );

    // A record that reaches past the buffer is rejected as a whole.
    assert!(decode_setup_output(&memory, record_offset + 1).is_err());
}
