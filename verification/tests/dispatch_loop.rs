//! Dispatch-loop decisions: render queue order, request translation.

use aurorashell::dispatch::{
    CallbackCall, CallbackRequest, LoopState, RenderQueue, Request, WasmCallbackData,
    callback_data_value, handle_request,
};
use aurorashell::lease::WasmId;
use aurorashell::lifecycle::admit_module;
use aurorashell::setup::SetupOutput;
use aurorashell::surface::{
    Anchor, Id, KeyboardInteractivity, Layer, LayerSurface, LimitsBits, Margin,
};

#[test]
fn render_queue_is_first_in_first_out() {
    let mut q = RenderQueue::from_modules(&vec![3, 1, 2]);
    assert_eq!(q.state(), LoopState::DrainingRender);
    assert_eq!(q.pop_front(), Some(3));
    q.push_back(9);
    assert_eq!(q.pop_front(), Some(1));
    assert_eq!(q.pop_front(), Some(2));
    assert_eq!(q.pop_front(), Some(9));
    assert_eq!(q.pop_front(), None);
    assert_eq!(q.state(), LoopState::AwaitingRequest);
}

#[test]
fn empty_queue_awaits_requests() {
    let mut q = RenderQueue::new();
    assert_eq!(q.len(), 0);
    assert_eq!(q.state(), LoopState::AwaitingRequest);
    q.push_back(0);
    assert_eq!(q.len(), 1);
    assert_eq!(q.state(), LoopState::DrainingRender);
}

#[test]
fn callback_data_defaults_to_zero() {
    assert_eq!(callback_data_value(&None), 0);
    assert_eq!(callback_data_value(&Some(WasmCallbackData::Slider(55))), 55);
}

#[test]
fn callback_request_translates_through_the_lease_table() {
    let mut leases = WasmId::new();
    let id = leases.unique(777);
    let request = CallbackRequest {
        module_id: 0,
        surface_handle: 777,
        callback_id: 4,
        data: Some(WasmCallbackData::Slider(12)),
    };
    assert_eq!(
        aurorashell::dispatch::plan_callback(&leases, &request),
        Some(CallbackCall { surface_id: id, callback_id: 4, data: 12 })
    );
    // A handle that maps to no leased id drops the request.
    let stray = CallbackRequest {
        module_id: 0,
        surface_handle: 778,
        callback_id: 4,
        data: None,
    };
    assert_eq!(aurorashell::dispatch::plan_callback(&leases, &stray), None);
}

#[test]
fn admitted_module_keeps_only_leased_surfaces() {
    let mut leases = WasmId::new();
    let leased = leases.unique(500);
    let base = LayerSurface {
        id: Id(leased),
        layer: Layer::Top,
        anchor: Anchor::none(),
        size: None,
        margin: Margin { top: 0, right: 0, bottom: 0, left: 0 },
        limits: LimitsBits {
            min_width_bits: 0,
            max_width_bits: 0,
            min_height_bits: 0,
            max_height_bits: 0,
        },
        exclusive_zone: 0,
        keyboard_interactivity: KeyboardInteractivity::NoInput,
        pointer_interactivity: true,
    };
    let declared = vec![
        base.to_raw(0, 0),
        LayerSurface { id: Id(99), ..base }.to_raw(0, 0),
    ];
    let setup = SetupOutput {
        module_name: b"demo".to_vec(),
        layer_surfaces: declared,
        registers: vec![],
    };
    let record = admit_module(3, setup, &leases);
    assert_eq!(record.id, 3);
    assert_eq!(record.module_name, b"demo".to_vec());
    assert_eq!(record.used_surface_ids, vec![leased]);
}

#[test]
fn requests_drive_the_queue() {
    let mut leases = WasmId::new();
    let id = leases.unique(321);
    let mut queue = RenderQueue::new();

    // A resolvable callback yields the guest call and queues the module.
    let call = handle_request(
        &mut queue,
        &leases,
        &Request::CallbackEvent(CallbackRequest {
            module_id: 5,
            surface_handle: 321,
            callback_id: 2,
            data: None,
        }),
    );
    assert_eq!(
        call,
        Some(CallbackCall { surface_id: id, callback_id: 2, data: 0 })
    );
    assert_eq!(queue.len(), 1);

    // An unleased handle is dropped whole.
    let call = handle_request(
        &mut queue,
        &leases,
        &Request::CallbackEvent(CallbackRequest {
            module_id: 5,
            surface_handle: 999,
            callback_id: 2,
            data: None,
        }),
    );
    assert_eq!(call, None);
    assert_eq!(queue.len(), 1);

    // Service data queues a re-render only on request.
    handle_request(&mut queue, &leases, &Request::ServiceData { module_id: 7, requeue: false });
    assert_eq!(queue.len(), 1);
    handle_request(&mut queue, &leases, &Request::ServiceData { module_id: 7, requeue: true });
    assert_eq!(queue.len(), 2);
    assert_eq!(queue.pop_front(), Some(5));
    assert_eq!(queue.pop_front(), Some(7));
}
