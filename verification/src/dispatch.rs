//! The dispatch loop's decision logic.
//!
//! The loop itself is single-threaded and cooperative: drain the render
//! queue module by module, then block for one inbound request, act on it,
//! and drain again.  The outside work — calling guest entry points,
//! sending UI updates — happens at the edge; what stands here is the state
//! a cycle carries and the plain decisions it takes: which module renders
//! next, what a callback request means for the guest call, and when a
//! module is queued for re-render.  A module whose call fails is skipped
//! for the cycle, never evicted.

use vstd::prelude::*;

use crate::lease::WasmId;

verus! {

/// Raw input accompanying a callback, for widgets that carry one: a
/// slider delivers the new value's 64-bit pattern.
#[derive(Debug, Clone, Copy, PartialEq, Eq, Structural)]
pub enum WasmCallbackData {
    Slider(u64),
}

/// The raw 64-bit argument handed to the guest's callback entry point:
/// the carried value, or 0 for widgets without data.
pub fn callback_data_value(data: &Option<WasmCallbackData>) -> (r: u64)
    ensures
        r == (match *data {
            Some(WasmCallbackData::Slider(v)) => v,
            None => 0u64,
        }),
{
    match data {
        Some(WasmCallbackData::Slider(v)) => *v,
        None => 0,
    }
}

/// A callback request as it arrives from the shell: the surface is named
/// by its host handle, which must be translated back to the module-local
/// id before the guest can be called.
#[derive(Debug, Clone, Copy, PartialEq, Eq, Structural)]
pub struct CallbackRequest {
    pub module_id: u32,
    pub surface_handle: u64,
    pub callback_id: u32,
    pub data: Option<WasmCallbackData>,
}

/// The arguments for one guest callback invocation, ready for the ABI:
/// `(surface_id, callback_id, data)`.
#[derive(Debug, Clone, Copy, PartialEq, Eq, Structural)]
pub struct CallbackCall {
    pub surface_id: u32,
    pub callback_id: u32,
    pub data: u64,
}

/// Translates a callback request into the guest call it demands, through
/// the module's lease table.  A host handle that maps to no leased id
/// means the request is dropped (logged by the caller), not that anything
/// fails.
pub fn plan_callback(leases: &WasmId, request: &CallbackRequest) -> (r: Option<CallbackCall>)
    ensures
        r == (if leases.spec_lut().contains_key(request.surface_handle) {
            Some(CallbackCall {
                surface_id: leases.spec_lut()[request.surface_handle],
                callback_id: request.callback_id,
                data: match request.data {
                    Some(WasmCallbackData::Slider(v)) => v,
                    None => 0u64,
                },
            })
        } else {
            None::<CallbackCall>
        }),
{
    let surface_id = match leases.get_id(request.surface_handle) {
        Some(id) => id,
        None => {
            return None;
        }
    };
    Some(CallbackCall {
        surface_id,
        callback_id: request.callback_id,
        data: callback_data_value(&request.data),
    })
}

/// The two resting points of a dispatch cycle.
#[derive(Debug, Clone, Copy, PartialEq, Eq, Structural)]
pub enum LoopState {
    /// Working through the render queue, front to back.
    DrainingRender,
    /// Queue empty; blocked at the loop's one suspension point until a
    /// request arrives.
    AwaitingRequest,
}

/// The queue of module ids waiting to re-render, drained in arrival
/// order.  Ids may repeat; each entry is one render pass.
#[derive(Debug)]
pub struct RenderQueue {
    items: Vec<u32>,
}

impl RenderQueue {
    /// The queued ids, front first.
    pub closed spec fn view_items(self) -> Seq<u32> {
        self.items@
    }

    pub fn new() -> (r: RenderQueue)
        ensures
            r.view_items() == Seq::<u32>::empty(),
    {
        RenderQueue { items: Vec::new() }
    }

    /// Queues every module once, in the given order: the first full render
    /// pass after setup.
    pub fn from_modules(module_ids: &Vec<u32>) -> (r: RenderQueue)
        ensures
            r.view_items() == module_ids@,
    {
        let mut items: Vec<u32> = Vec::new();
        let mut i: usize = 0;
        while i < module_ids.len()
            invariant
                i <= module_ids@.len(),
                items@ == module_ids@.take(i as int),
            decreases module_ids@.len() - i,
        {
            items.push(module_ids[i]);
            assert(items@ =~= module_ids@.take((i + 1) as int));
            i = i + 1;
        }
        assert(items@ =~= module_ids@);
        RenderQueue { items }
    }

    /// Queues a module for a render pass at the back.  A module whose
    /// callback was handled re-enters here, so its surfaces redraw.
    pub fn push_back(&mut self, module_id: u32)
        ensures
            final(self).view_items() == old(self).view_items().push(module_id),
    {
        self.items.push(module_id);
    }

    /// Takes the next module to render, front first; `None` means the
    /// queue has drained and the loop should await a request.
    pub fn pop_front(&mut self) -> (r: Option<u32>)
        ensures
            match r {
                Some(id) => old(self).view_items().len() > 0 && id == old(self).view_items()[0]
                    && final(self).view_items() == old(self).view_items().skip(1),
                None => old(self).view_items().len() == 0 && *final(self) == *old(self),
            },
    {
        if self.items.len() == 0 {
            return None;
        }
        let id = self.items.remove(0);
        assert(self.items@ =~= old(self).items@.skip(1));
        Some(id)
    }

    /// How many render passes are queued.
    pub fn len(&self) -> (r: usize)
        ensures
            r == self.view_items().len(),
    {
        self.items.len()
    }

    /// The loop state the queue dictates: drain while anything is queued,
    /// await a request once empty.
    pub fn state(&self) -> (r: LoopState)
        ensures
            r == (if self.view_items().len() == 0 {
                LoopState::AwaitingRequest
            } else {
                LoopState::DrainingRender
            }),
    {
        if self.items.len() == 0 {
            LoopState::AwaitingRequest
        } else {
            LoopState::DrainingRender
        }
    }
}


/// One inbound request the loop can be woken for.
#[derive(Debug, Clone, Copy, PartialEq, Eq, Structural)]
pub enum Request {
    /// A callback fired for one of a module's surfaces.
    CallbackEvent(CallbackRequest),
    /// An external service pushed data a module subscribed to; the
    /// service says whether the module should re-render for it.
    ServiceData { module_id: u32, requeue: bool },
}

/// Acts on one inbound request: a callback request that resolves through
/// the lease table yields the guest call to make and queues the module
/// for re-render; one naming an unleased surface is dropped whole; pushed
/// service data queues the module exactly when the service asked for a
/// re-render.  The returned call, if any, is what the loop hands the
/// guest's callback entry point.
pub fn handle_request(queue: &mut RenderQueue, leases: &WasmId, request: &Request) -> (r: Option<
    CallbackCall,
>)
    ensures
        match *request {
            Request::CallbackEvent(cb) => {
                if leases.spec_lut().contains_key(cb.surface_handle) {
                    &&& r == Some(CallbackCall {
                        surface_id: leases.spec_lut()[cb.surface_handle],
                        callback_id: cb.callback_id,
                        data: match cb.data {
                            Some(WasmCallbackData::Slider(v)) => v,
                            None => 0u64,
                        },
                    })
                    &&& final(queue).view_items() == old(queue).view_items().push(cb.module_id)
                } else {
                    r is None && *final(queue) == *old(queue)
                }
            },
            Request::ServiceData { module_id, requeue } => r is None
                && final(queue).view_items() == (if requeue {
                    old(queue).view_items().push(module_id)
                } else {
                    old(queue).view_items()
                }),
        },
{
    match request {
        Request::CallbackEvent(cb) => {
            match plan_callback(leases, cb) {
                Some(call) => {
                    queue.push_back(cb.module_id);
                    Some(call)
                }
                None => None,
            }
        }
        Request::ServiceData { module_id, requeue } => {
            if *requeue {
                queue.push_back(*module_id);
            }
            None
        }
    }
}

} // verus!
