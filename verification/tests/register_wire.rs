//! Subscription-table wire format: encode, decode, and their round trip.

use aurorashell::WireError;
use aurorashell::register::{Interval, IntoRegister, PulseAudio, Register, Registers};
use aurorashell::subscription::{
    AudioRegisterData, Register as HostRegister, deserialize_registers,
};
use aurorashell::subscription::Register as R;

fn table_of(entries: Vec<Register>) -> Registers {
    Registers::from_macro(entries)
}

#[test]
fn round_trip_empty_table() {
    let bytes = table_of(vec![]).serialize().unwrap();
    assert_eq!(bytes.len(), 16);
    let decoded = deserialize_registers(&bytes).unwrap();
    assert_eq!(decoded, vec![]);
}

#[test]
fn round_trip_single_timer() {
    let t = Interval::from_millis(1500).offset(250);
    let bytes = table_of(vec![t.into_register()]).serialize().unwrap();
    assert_eq!(bytes.len(), 16 + 16 + 16);
    let decoded = deserialize_registers(&bytes).unwrap();
    assert_eq!(
        decoded,
        vec![HostRegister::Interval { milliseconds: 1500, offset: 250 }]
    );
}

#[test]
fn round_trip_single_property_watch() {
    let bytes = table_of(vec![PulseAudio(0b0101_0001).into_register()])
        .serialize()
        .unwrap();
    assert_eq!(bytes.len(), 16 + 16);
    let decoded = deserialize_registers(&bytes).unwrap();
    assert_eq!(
        decoded,
        vec![HostRegister::PulseAudio { pulseaudio: AudioRegisterData(0b0101_0001) }]
    );
}

#[test]
fn round_trip_mixed_entries_keep_order() {
    let entries = vec![
        Interval::from_millis(10).into_register(),
        PulseAudio(0b11).into_register(),
        Interval::from_millis(20).offset(5).into_register(),
    ];
    let bytes = table_of(entries).serialize().unwrap();
    let decoded = deserialize_registers(&bytes).unwrap();
    assert_eq!(
        decoded,
        vec![
            HostRegister::Interval { milliseconds: 10, offset: 0 },
            HostRegister::PulseAudio { pulseaudio: AudioRegisterData(0b11) },
            HostRegister::Interval { milliseconds: 20, offset: 5 },
        ]
    );
}

#[test]
fn duplicate_property_watch_rejected_before_any_bytes() {
    let entries = vec![
        PulseAudio(0b1).into_register(),
        PulseAudio(0b10).into_register(),
    ];
    let r = table_of(entries).serialize();
    assert_eq!(r, Err(WireError::DuplicateRegister(1)));
}

#[test]
fn duplicate_timers_allowed() {
    let entries = vec![
        Interval::from_millis(5).into_register(),
        Interval::from_millis(5).into_register(),
    ];
    let bytes = table_of(entries).serialize().unwrap();
    let decoded = deserialize_registers(&bytes).unwrap();
    assert_eq!(decoded.len(), 2);
}

#[test]
fn scenario_timer_and_property_watch() {
    // One timer (interval 1000 ms, offset 0) and one property watch with
    // bitmask 0b101, in declaration order.
    let entries = vec![
        Interval::from_millis(1000).offset(0).into_register(),
        PulseAudio(0b101).into_register(),
    ];
    let bytes = table_of(entries).serialize().unwrap();
    // header + two entries + the timer's extra data
    assert_eq!(bytes.len(), 16 + 16 * 2 + 16);
    let decoded = deserialize_registers(&bytes).unwrap();
    assert_eq!(
        decoded,
        vec![
            HostRegister::Interval { milliseconds: 1000, offset: 0 },
            HostRegister::PulseAudio { pulseaudio: AudioRegisterData(0b101) },
        ]
    );
}

#[test]
fn truncated_tables_always_fail() {
    let entries = vec![
        Interval::from_millis(1000).into_register(),
        PulseAudio(0b101).into_register(),
    ];
    let bytes = table_of(entries).serialize().unwrap();
    for cut in 0..bytes.len() {
        let shorter: Vec<u8> = bytes[..cut].to_vec();
        assert!(deserialize_registers(&shorter).is_err(), "cut at {}", cut);
    }
}

#[test]
fn unknown_register_id_is_hard_failure() {
    // Hand-built table: one entry with id 2, which no decoder knows.
    let mut bytes = vec![0u8; 32];
    bytes[0..4].copy_from_slice(&32u32.to_be_bytes());
    bytes[4] = 0;
    bytes[5] = 1;
    bytes[6..8].copy_from_slice(&1u16.to_be_bytes());
    bytes[16..18].copy_from_slice(&2u16.to_be_bytes());
    assert_eq!(
        deserialize_registers(&bytes),
        Err(WireError::UnknownRegisterId(2))
    );
}

#[test]
fn timer_extra_data_out_of_bounds_fails() {
    // A timer entry whose extra-data offset reaches past the buffer.
    let mut bytes = vec![0u8; 32];
    bytes[0..4].copy_from_slice(&32u32.to_be_bytes());
    bytes[5] = 1;
    bytes[6..8].copy_from_slice(&1u16.to_be_bytes());
    bytes[16..18].copy_from_slice(&3u16.to_be_bytes());
    bytes[22..26].copy_from_slice(&100u32.to_be_bytes());
    assert_eq!(deserialize_registers(&bytes), Err(WireError::OutOfBounds));
}

#[test]
fn interval_builders_accumulate_milliseconds() {
    let t = Interval::from_seconds(2).add_millis(5);
    let bytes = table_of(vec![t.into_register()]).serialize().unwrap();
    let decoded = deserialize_registers(&bytes).unwrap();
    assert_eq!(
        decoded,
        vec![HostRegister::Interval { milliseconds: 2005, offset: 0 }]
    );

    let m = Interval::from_minutes(1);
    let h = Interval::from_hours(1);
    let d = Interval::from_days(1);
    let all = Interval::from_millis(0)
        .add_seconds(1)
        .add_minutes(1)
        .add_hours(1)
        .add_days(1);
    let bytes = table_of(vec![
        m.into_register(),
        h.into_register(),
        d.into_register(),
        all.into_register(),
    ])
    .serialize()
    .unwrap();
    let decoded = deserialize_registers(&bytes).unwrap();
    assert_eq!(
        decoded,
        vec![
            HostRegister::Interval { milliseconds: 60_000, offset: 0 },
            HostRegister::Interval { milliseconds: 3_600_000, offset: 0 },
            HostRegister::Interval { milliseconds: 86_400_000, offset: 0 },
            HostRegister::Interval {
                milliseconds: 1000 + 60_000 + 3_600_000 + 86_400_000,
                offset: 0
            },
        ]
    );
}

#[test]
fn wire_ids_and_duplicate_policy() {
    assert_eq!(Interval::const_id(), 3);
    assert!(Interval::const_allow_duplicates());
    assert_eq!(PulseAudio::const_id(), 1);
    assert!(!PulseAudio::const_allow_duplicates());
    assert_eq!(PulseAudio::none().0, 0);
    assert_eq!(PulseAudio::all().0, 0x7f);
}

#[test]
fn entry_decoding_helpers() {
    let bytes = table_of(vec![
        Interval::from_millis(1000).offset(9).into_register(),
        PulseAudio(0b101).into_register(),
    ])
    .serialize()
    .unwrap();
    let table_end = 16 + 16 * 2;
    let first = R::get_entry_data(&bytes, 16).unwrap();
    assert_eq!((first.id, first.registers, first.extra_data_offset), (3, 0, 0));
    let second = R::get_entry_data(&bytes, 32).unwrap();
    assert_eq!((second.id, second.registers), (1, 0b101));
    assert_eq!(
        R::from_entry_bytes(&bytes, table_end, 16).unwrap(),
        HostRegister::Interval { milliseconds: 1000, offset: 9 }
    );
    assert_eq!(
        R::from_entry_bytes(&bytes, table_end, 32).unwrap(),
        HostRegister::PulseAudio { pulseaudio: AudioRegisterData(0b101) }
    );
    assert!(R::get_entry_data(&bytes, bytes.len()).is_err());
}
