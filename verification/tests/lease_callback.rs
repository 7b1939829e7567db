//! Surface-id leasing and callback dispatch.

use aurorashell::arena::SliderNumberType;
use aurorashell::callback::{
    CallbackTable, CallbackType, pack_callback_result, split_callback_result,
};
use aurorashell::lease::{IdType, WasmId};

#[test]
fn leases_count_up_from_one() {
    let mut t = WasmId::new();
    for expected in 1u32..=5 {
        let id = t.unique(1000 + expected as u64);
        assert_eq!(id, expected);
        assert!(t.has_lease(id));
    }
}

#[test]
fn revoked_id_is_never_reissued() {
    let mut t = WasmId::new();
    let mut issued = Vec::new();
    for k in 0u64..5 {
        issued.push(t.unique(k));
    }
    assert!(t.drop_id(3));
    assert!(!t.has_lease(3));
    let next = t.unique(99);
    assert_eq!(next, 6);
    assert!(!issued.contains(&next));
    // Revoking twice reports nothing left to revoke.
    assert!(!t.drop_id(3));
}

#[test]
fn lease_mappings_are_bidirectional() {
    let mut t = WasmId::new();
    let id = t.unique(4242);
    assert_eq!(t.get_host_id(id), Some(4242));
    assert_eq!(t.get_id(4242), Some(id));
    assert_eq!(t.get_host_id(77), None);
    assert_eq!(t.get_id(77), None);
    t.drop_id(id);
    assert_eq!(t.get_host_id(id), None);
    assert_eq!(t.get_id(4242), None);
}

#[test]
fn leasing_past_the_maximum_returns_zero_deterministically() {
    let mut t = WasmId::new();
    for k in 1u32..=254 {
        assert_eq!(t.unique(k as u64), k);
    }
    // The counter has reached its maximum: every further lease is 0.
    assert_eq!(t.unique(9001), 0);
    assert_eq!(t.unique(9002), 0);
    assert_eq!(t.unique(9003), 0);
}

#[test]
fn id_type_codes() {
    assert_eq!(IdType::from_code(0), Some(IdType::NoId));
    assert_eq!(IdType::from_code(1), Some(IdType::LayerSurface));
    assert_eq!(IdType::from_code(2), None);
}

#[test]
fn callback_dispatch_returns_expected_pair() {
    let mut t = CallbackTable::new();
    t.set_callbacks(
        10,
        vec![
            CallbackType::Button { message_id: 7 },
            CallbackType::Slider { ty: SliderNumberType::I32, message_id: 9 },
        ],
    );
    // A button raises its message with payload 0.
    assert_eq!(t.run_callback(10, 1, 0), 7u64 << 32);
    // A slider raises its message with the input's low word as payload.
    assert_eq!(t.run_callback(10, 2, 42), (9u64 << 32) | 42);
    let (mid, payload) = split_callback_result(t.run_callback(10, 2, 42));
    assert_eq!((mid, payload), (9, 42));
}

#[test]
fn callback_misses_return_the_sentinel() {
    let mut t = CallbackTable::new();
    t.set_callbacks(10, vec![CallbackType::Button { message_id: 7 }]);
    // Id 0 means "none".
    assert_eq!(t.run_callback(10, 0, 0), 0);
    // Beyond the table's end.
    assert_eq!(t.run_callback(10, 2, 0), 0);
    // A surface with no table at all.
    assert_eq!(t.run_callback(11, 1, 0), 0);
    // The hit still works afterwards: the misses had no effect.
    assert_eq!(t.run_callback(10, 1, 0), 7u64 << 32);
}

#[test]
fn pack_and_split_are_inverses() {
    let packed = pack_callback_result(0xDEAD_BEEF, 0x1234_5678);
    assert_eq!(packed, 0xDEAD_BEEF_1234_5678);
    assert_eq!(split_callback_result(packed), (0xDEAD_BEEF, 0x1234_5678));
    assert_eq!(split_callback_result(0), (0, 0));
}
