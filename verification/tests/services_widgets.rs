//! Service bookkeeping and widget builders.

use aurorashell::arena::{SliderNumberType, WasmUiNode};
use aurorashell::callback::CallbackType;
use aurorashell::arena::{check_utf8, i32_of_slider_bits, slider_bits_of_i32};
use aurorashell::services::{
    ModuleIds, RegisterType, RuntimeModuleId, SubscriptionData, audio_register_types,
    module_register_pairs, subscription_of,
};
use aurorashell::subscription::{AudioRegisterData, Register};
use aurorashell::theme::Color;
use aurorashell::ui::build_tree;
use aurorashell::view::view_build_ui;
use aurorashell::widget::{Button, Column, Row, Slider, Stack, Style, Text};

#[test]
fn registers_become_subscription_data() {
    assert_eq!(
        subscription_of(&Register::Interval { milliseconds: 9, offset: 2 }),
        SubscriptionData::Interval { milliseconds: 9, offset: 2 }
    );
    assert_eq!(
        subscription_of(&Register::PulseAudio { pulseaudio: AudioRegisterData(3) }),
        SubscriptionData::PulseAudio { data: AudioRegisterData(3) }
    );
}

#[test]
fn register_pairs_carry_the_module_id() {
    let rs = vec![
        Register::Interval { milliseconds: 1, offset: 0 },
        Register::PulseAudio { pulseaudio: AudioRegisterData(1) },
    ];
    let pairs = module_register_pairs(7, &rs);
    assert_eq!(pairs.len(), 2);
    assert_eq!(pairs[0], (7, SubscriptionData::Interval { milliseconds: 1, offset: 0 }));
    assert_eq!(
        pairs[1],
        (7, SubscriptionData::PulseAudio { data: AudioRegisterData(1) })
    );
}

#[test]
fn audio_bitmask_selects_event_kinds_in_bit_order() {
    assert_eq!(audio_register_types(&AudioRegisterData(0)), vec![]);
    assert_eq!(
        audio_register_types(&AudioRegisterData(0b101)),
        vec![RegisterType::SinksChanged, RegisterType::SourcesChanged]
    );
    assert_eq!(
        audio_register_types(&AudioRegisterData(0x7f)),
        vec![
            RegisterType::SinksChanged,
            RegisterType::DefaultSinkChanged,
            RegisterType::SourcesChanged,
            RegisterType::DefaultSourceChanged,
            RegisterType::CardsChanged,
            RegisterType::SinkProfileChanged,
            RegisterType::SourceProfileChanged,
        ]
    );
}

#[test]
fn audio_flag_operations() {
    let all = AudioRegisterData::all();
    assert!(all.is_set(AudioRegisterData(0b0000_0001)));
    assert!(!AudioRegisterData::none().is_set(AudioRegisterData(0b1)));
    assert_eq!(AudioRegisterData::all().0, 0x7f);
}

#[test]
fn color_codes_are_stable() {
    assert_eq!(Color::Color01.code(), 1);
    assert_eq!(Color::Color16.code(), 16);
    assert_eq!(Color::ColorForeground.code(), 17);
    assert_eq!(Color::ColorBackground.code(), 18);
    assert_eq!(Color::Custom(Box::new(String::from("#102030"))).code(), 19);
}

#[test]
fn widget_builders_assign_callback_ids_in_registration_order() {
    let mut callbacks: Vec<CallbackType> = Vec::new();
    let slider = Slider::new(SliderNumberType::I32, 0, 100, 50, 11).build(&mut callbacks);
    let button = Button::new(Text::new(b"mute".to_vec()).build())
        .on_press(22)
        .build(&mut callbacks);
    let quiet = Button::new(Text::new(b"idle".to_vec()).build()).build(&mut callbacks);

    assert_eq!(
        callbacks,
        vec![
            CallbackType::Slider { ty: SliderNumberType::I32, message_id: 11 },
            CallbackType::Button { message_id: 22 },
        ]
    );
    match slider {
        WasmUiNode::Slider { callback_id, .. } => assert_eq!(callback_id, 1),
        other => panic!("expected a slider, got {:?}", other),
    }
    match button {
        WasmUiNode::Button { callback_id, .. } => assert_eq!(callback_id, 2),
        other => panic!("expected a button, got {:?}", other),
    }
    match quiet {
        WasmUiNode::Button { callback_id, .. } => assert_eq!(callback_id, 0),
        other => panic!("expected a button, got {:?}", other),
    }
}

#[test]
fn styled_text_keeps_its_color_through_the_codec() {
    let node = Text::new(b"cpu 42%".to_vec())
        .style(Style { text_color: Some(Color::Color09) })
        .build();
    assert_eq!(node, WasmUiNode::Text { content: b"cpu 42%".to_vec(), color: 9 });
    let (blob, vfd) = view_build_ui(&node).unwrap();
    assert_eq!(build_tree(&blob, &vfd, vfd.head_index).unwrap(), node);
}

#[test]
fn container_builders_compose() {
    let mut callbacks: Vec<CallbackType> = Vec::new();
    let tree = Row::from_vec(vec![
        Column::from_vec(vec![Text::new(b"a".to_vec()).build()]).build(),
        Stack::from_vec(vec![
            Text::new(b"b".to_vec()).build(),
            Button::new(Text::new(b"c".to_vec()).build())
                .on_press(5)
                .build(&mut callbacks),
        ])
        .build(),
    ])
    .build();
    let (blob, vfd) = view_build_ui(&tree).unwrap();
    assert_eq!(build_tree(&blob, &vfd, vfd.head_index).unwrap(), tree);
    assert_eq!(callbacks, vec![CallbackType::Button { message_id: 5 }]);
}

#[test]
fn utf8_checker_agrees_with_the_language() {
    let corpus: Vec<Vec<u8>> = vec![
        vec![],
        b"plain ascii".to_vec(),
        "caf\u{e9} \u{2713} \u{1F5A5}".as_bytes().to_vec(),
        vec![0xFF],
        vec![0xC0, 0xAF],
        vec![0xC2],
        vec![0xC2, 0xA9],
        vec![0xE0, 0x80, 0x80],
        vec![0xE0, 0xA0, 0x80],
        vec![0xED, 0xA0, 0x80],
        vec![0xED, 0x9F, 0xBF],
        vec![0xF0, 0x80, 0x80, 0x80],
        vec![0xF0, 0x90, 0x80, 0x80],
        vec![0xF4, 0x8F, 0xBF, 0xBF],
        vec![0xF4, 0x90, 0x80, 0x80],
        vec![0xF5, 0x80, 0x80, 0x80],
        vec![0x80],
        vec![0x61, 0xC2, 0xA9, 0x62],
        vec![0x61, 0xC2, 0x41],
    ];
    for bytes in corpus {
        assert_eq!(
            check_utf8(&bytes),
            std::str::from_utf8(&bytes).is_ok(),
            "bytes {:?}",
            bytes
        );
    }
}

#[test]
fn i32_slider_bits_round_trip() {
    for v in [0i32, 1, -1, 42, -42, i32::MAX, i32::MIN] {
        let bits = slider_bits_of_i32(v);
        assert_eq!(bits, v as i64 as u64);
        assert_eq!(i32_of_slider_bits(bits), v);
    }
}

#[test]
fn module_registry_mirrors_registrations() {
    let mut table = ModuleIds::new();
    let a = RuntimeModuleId::Wasm(1);
    let b = RuntimeModuleId::Wasm(2);
    table.register_module(a, vec![RegisterType::SinksChanged, RegisterType::CardsChanged]);
    table.register_module(
        b,
        vec![RegisterType::SinksChanged, RegisterType::DefaultSinkChanged],
    );
    assert_eq!(table.event_modules(RegisterType::SinksChanged), vec![a, b]);
    assert_eq!(table.event_modules(RegisterType::CardsChanged), vec![a]);
    assert_eq!(
        table.event_modules(RegisterType::DefaultSinkChanged),
        vec![b]
    );
    assert_eq!(table.event_modules(RegisterType::SourcesChanged), vec![]);

    // Unregistering removes the module everywhere it was mentioned.
    table.unregister_module(a);
    assert_eq!(table.event_modules(RegisterType::SinksChanged), vec![b]);
    assert_eq!(table.event_modules(RegisterType::CardsChanged), vec![]);
    // A second unregister finds nothing left to remove.
    table.unregister_module(a);
    assert_eq!(table.event_modules(RegisterType::SinksChanged), vec![b]);
}
