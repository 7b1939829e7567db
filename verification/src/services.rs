//! Service-facing views of a module's subscriptions.
//!
//! Decoded registers are forwarded to the external services that feed
//! them: a timer service for interval interrupts, an audio service for
//! mixer-property changes.  What stands here is the pure bookkeeping: the
//! per-service subscription data a register turns into, the event kinds an
//! audio bitmask selects, and the module-id pairing the dispatch loop
//! forwards.

use vstd::prelude::*;

use std::collections::HashMap;

use crate::subscription::{AudioRegisterData, Register};

verus! {

broadcast use vstd::std_specs::hash::group_hash_axioms;

/// A module's id within its runtime.
#[derive(Debug, Clone, Copy, PartialEq, Eq, Hash, Structural)]
pub enum RuntimeModuleId {
    Wasm(u32),
}

impl RuntimeModuleId {
    /// A lookup key for this id: the runtime's tag in the high half, the
    /// module number in the low half, so distinct ids never collide.
    pub open spec fn spec_key(self) -> u64 {
        match self {
            RuntimeModuleId::Wasm(n) => n as u64,
        }
    }

    /// A lookup key for this id.
    pub fn key(self) -> (r: u64)
        ensures
            r == self.spec_key(),
    {
        match self {
            RuntimeModuleId::Wasm(n) => n as u64,
        }
    }
}

/// A register as a service receives it.
#[derive(Debug, Clone, Copy, PartialEq, Eq, Structural)]
pub enum SubscriptionData {
    Interval { milliseconds: u64, offset: u32 },
    PulseAudio { data: AudioRegisterData },
}

/// The audio event kinds modules can subscribe to, one per bitmask bit.
#[derive(Debug, Clone, Copy, PartialEq, Eq, Hash, Structural)]
pub enum RegisterType {
    SinksChanged,
    DefaultSinkChanged,
    SourcesChanged,
    DefaultSourceChanged,
    CardsChanged,
    SinkProfileChanged,
    SourceProfileChanged,
}

/// The audio event kinds as the audio service emits them; mirrors
/// [`RegisterType`] entry for entry.
#[derive(Debug, Clone, Copy, PartialEq, Eq, Hash, Structural)]
pub enum AudioEventType {
    SinksChanged,
    DefaultSinkChanged,
    SourcesChanged,
    DefaultSourceChanged,
    CardsChanged,
    SinkProfileChanged,
    SourceProfileChanged,
}

/// One audio card as the audio service reports it.
#[derive(Debug, Clone, PartialEq, Eq)]
pub struct Card {
    pub name: String,
    pub index: u32,
    pub profiles: Vec<Profile>,
    pub selected_profile: Option<Profile>,
}

/// One selectable profile of an audio card.
#[derive(Debug, Clone, PartialEq, Eq)]
pub struct Profile {
    pub name: String,
    pub description: String,
}

/// The service-facing form of one decoded register.
pub open spec fn spec_subscription_of(r: Register) -> SubscriptionData {
    match r {
        Register::Interval { milliseconds, offset } => SubscriptionData::Interval {
            milliseconds,
            offset,
        },
        Register::PulseAudio { pulseaudio } => SubscriptionData::PulseAudio { data: pulseaudio },
    }
}

/// Turns one decoded register into the data its service is subscribed
/// with.
pub fn subscription_of(r: &Register) -> (s: SubscriptionData)
    ensures
        s == spec_subscription_of(*r),
{
    match r {
        Register::Interval { milliseconds, offset } => SubscriptionData::Interval {
            milliseconds: *milliseconds,
            offset: *offset,
        },
        Register::PulseAudio { pulseaudio } => SubscriptionData::PulseAudio { data: *pulseaudio },
    }
}

/// Pairs every register of one module with the module's id, in table
/// order: the flat list the dispatch loop forwards to services at setup.
pub fn module_register_pairs(module_id: u32, registers: &Vec<Register>) -> (r: Vec<
    (u32, SubscriptionData),
>)
    ensures
        r@.len() == registers@.len(),
        forall|i: int|
            0 <= i < registers@.len() ==> #[trigger] r@[i] == (
                module_id,
                spec_subscription_of(registers@[i]),
            ),
{
    let mut out: Vec<(u32, SubscriptionData)> = Vec::new();
    let mut i: usize = 0;
    while i < registers.len()
        invariant
            i <= registers@.len(),
            out@.len() == i,
            forall|j: int|
                0 <= j < i ==> #[trigger] out@[j] == (
                    module_id,
                    spec_subscription_of(registers@[j]),
                ),
        decreases registers@.len() - i,
    {
        let s = subscription_of(&registers[i]);
        out.push((module_id, s));
        i = i + 1;
    }
    out
}

/// The event kinds an audio bitmask selects, in bit order.
pub open spec fn spec_audio_types_of(bits: u8) -> Seq<RegisterType> {
    (if bits & 0x01 != 0 {
        seq![RegisterType::SinksChanged]
    } else {
        Seq::empty()
    }) + (if bits & 0x02 != 0 {
        seq![RegisterType::DefaultSinkChanged]
    } else {
        Seq::empty()
    }) + (if bits & 0x04 != 0 {
        seq![RegisterType::SourcesChanged]
    } else {
        Seq::empty()
    }) + (if bits & 0x08 != 0 {
        seq![RegisterType::DefaultSourceChanged]
    } else {
        Seq::empty()
    }) + (if bits & 0x10 != 0 {
        seq![RegisterType::CardsChanged]
    } else {
        Seq::empty()
    }) + (if bits & 0x20 != 0 {
        seq![RegisterType::SinkProfileChanged]
    } else {
        Seq::empty()
    }) + (if bits & 0x40 != 0 {
        seq![RegisterType::SourceProfileChanged]
    } else {
        Seq::empty()
    })
}

/// The audio event kinds a module's subscription bitmask registers it
/// for, in bit order.
pub fn audio_register_types(data: &AudioRegisterData) -> (r: Vec<RegisterType>)
    ensures
        r@ == spec_audio_types_of(data.0),
{
    let mut out: Vec<RegisterType> = Vec::new();
    if data.0 & 0x01 != 0 {
        out.push(RegisterType::SinksChanged);
    }
    if data.0 & 0x02 != 0 {
        out.push(RegisterType::DefaultSinkChanged);
    }
    if data.0 & 0x04 != 0 {
        out.push(RegisterType::SourcesChanged);
    }
    if data.0 & 0x08 != 0 {
        out.push(RegisterType::DefaultSourceChanged);
    }
    if data.0 & 0x10 != 0 {
        out.push(RegisterType::CardsChanged);
    }
    if data.0 & 0x20 != 0 {
        out.push(RegisterType::SinkProfileChanged);
    }
    if data.0 & 0x40 != 0 {
        out.push(RegisterType::SourceProfileChanged);
    }
    proof {
        assert(out@ =~= spec_audio_types_of(data.0));
    }
    out
}


impl RegisterType {
    /// A lookup key for this event kind, one per variant.
    pub open spec fn spec_key(self) -> u8 {
        match self {
            RegisterType::SinksChanged => 0,
            RegisterType::DefaultSinkChanged => 1,
            RegisterType::SourcesChanged => 2,
            RegisterType::DefaultSourceChanged => 3,
            RegisterType::CardsChanged => 4,
            RegisterType::SinkProfileChanged => 5,
            RegisterType::SourceProfileChanged => 6,
        }
    }

    /// A lookup key for this event kind.
    pub fn key(self) -> (r: u8)
        ensures
            r == self.spec_key(),
    {
        match self {
            RegisterType::SinksChanged => 0,
            RegisterType::DefaultSinkChanged => 1,
            RegisterType::SourcesChanged => 2,
            RegisterType::DefaultSourceChanged => 3,
            RegisterType::CardsChanged => 4,
            RegisterType::SinkProfileChanged => 5,
            RegisterType::SourceProfileChanged => 6,
        }
    }
}

/// `s` with every occurrence of `id` removed, order otherwise kept.
pub open spec fn seq_without(s: Seq<RuntimeModuleId>, id: RuntimeModuleId) -> Seq<
    RuntimeModuleId,
>
    decreases s.len(),
{
    if s.len() == 0 {
        Seq::empty()
    } else {
        (if s[0] == id {
            Seq::empty()
        } else {
            seq![s[0]]
        }) + seq_without(s.skip(1), id)
    }
}

/// `seq_without` of a list with one id appended.
pub proof fn lemma_seq_without_snoc(s: Seq<RuntimeModuleId>, x: RuntimeModuleId, id: RuntimeModuleId)
    ensures
        seq_without(s.push(x), id) == seq_without(s, id) + (if x == id {
            Seq::empty()
        } else {
            seq![x]
        }),
    decreases s.len(),
{
    let t = s.push(x);
    let tail: Seq<RuntimeModuleId> = if x == id {
        Seq::empty()
    } else {
        seq![x]
    };
    if s.len() == 0 {
        assert(t[0] == x);
        assert(t.skip(1) =~= Seq::<RuntimeModuleId>::empty());
        assert(seq_without(t.skip(1), id) == Seq::<RuntimeModuleId>::empty());
        assert(seq_without(s, id) == Seq::<RuntimeModuleId>::empty());
        assert(seq_without(t, id) =~= seq_without(s, id) + tail);
    } else {
        assert(t[0] == s[0]);
        assert(t.skip(1) =~= s.skip(1).push(x));
        lemma_seq_without_snoc(s.skip(1), x, id);
        assert(seq_without(t, id) == (if s[0] == id {
            Seq::<RuntimeModuleId>::empty()
        } else {
            seq![s[0]]
        }) + seq_without(t.skip(1), id));
        assert(seq_without(s, id) == (if s[0] == id {
            Seq::<RuntimeModuleId>::empty()
        } else {
            seq![s[0]]
        }) + seq_without(s.skip(1), id));
        assert(seq_without(t, id) =~= seq_without(s, id) + tail);
    }
}

/// Removing `id` removes exactly `id`: membership of everything else is
/// untouched, and `id` itself is gone.
pub proof fn lemma_seq_without_membership(s: Seq<RuntimeModuleId>, id: RuntimeModuleId, x: RuntimeModuleId)
    ensures
        seq_without(s, id).contains(x) <==> x != id && s.contains(x),
    decreases s.len(),
{
    if s.len() > 0 {
        lemma_seq_without_membership(s.skip(1), id, x);
        let head: Seq<RuntimeModuleId> = if s[0] == id {
            Seq::empty()
        } else {
            seq![s[0]]
        };
        assert(seq_without(s, id) == head + seq_without(s.skip(1), id));
        if x != id && s.contains(x) {
            let k = choose|k: int| 0 <= k < s.len() && s[k] == x;
            if k == 0 {
                assert((head + seq_without(s.skip(1), id))[0] == x);
            } else {
                assert(s.skip(1)[k - 1] == x);
                assert(s.skip(1).contains(x));
                let m = choose|m: int|
                    0 <= m < seq_without(s.skip(1), id).len() && seq_without(s.skip(1), id)[m]
                        == x;
                assert((head + seq_without(s.skip(1), id))[head.len() + m] == x);
            }
        }
        if seq_without(s, id).contains(x) {
            let k = choose|k: int|
                0 <= k < seq_without(s, id).len() && seq_without(s, id)[k] == x;
            if k < head.len() {
                assert(s[0] == x && s[0] != id);
                assert(s.contains(x));
            } else {
                assert(seq_without(s.skip(1), id)[k - head.len()] == x);
                assert(seq_without(s.skip(1), id).contains(x));
                assert(s.skip(1).contains(x));
                let m = choose|m: int| 0 <= m < s.skip(1).len() && s.skip(1)[m] == x;
                assert(s[m + 1] == x);
            }
        }
    }
}

/// The registration table pairing event kinds with the modules that want
/// them: one direction for fanning an event out to its modules, the
/// mirror direction for tearing a module's registrations down.
#[derive(Debug)]
pub struct ModuleIds {
    /// For each event kind, the modules registered to it, in registration
    /// order.
    events_to_ids: HashMap<u8, Vec<RuntimeModuleId>>,
    /// For each registered module, the event kinds it registered.
    ids_to_events: HashMap<u64, Vec<RegisterType>>,
}

impl ModuleIds {
    /// The modules registered to event kind `e`, in registration order.
    pub closed spec fn spec_event_ids(self, e: RegisterType) -> Seq<RuntimeModuleId> {
        if self.events_to_ids@.contains_key(e.spec_key()) {
            self.events_to_ids@[e.spec_key()]@
        } else {
            Seq::empty()
        }
    }

    /// Whether `id` is a registered module.
    pub closed spec fn spec_has_module(self, id: RuntimeModuleId) -> bool {
        self.ids_to_events@.contains_key(id.spec_key())
    }

    /// The event kinds module `id` registered.
    pub closed spec fn spec_module_events(self, id: RuntimeModuleId) -> Seq<RegisterType> {
        if self.ids_to_events@.contains_key(id.spec_key()) {
            self.ids_to_events@[id.spec_key()]@
        } else {
            Seq::empty()
        }
    }

    /// The two directions mirror each other: an event kind's list holds a
    /// module exactly when that module is registered and lists the kind —
    /// so tearing a module down by its own list reaches every mention of
    /// it.  Each event list also holds a module at most once.
    pub closed spec fn wf(self) -> bool {
        &&& forall|e: RegisterType, id: RuntimeModuleId|
            #[trigger] self.spec_event_ids(e).contains(id) <==> self.spec_has_module(id)
                && self.spec_module_events(id).contains(e)
        &&& forall|e: RegisterType, i: int, j: int|
            0 <= i < j < self.spec_event_ids(e).len() ==> #[trigger] self.spec_event_ids(e)[i]
                != #[trigger] self.spec_event_ids(e)[j]
    }

    /// The modules registered to event kind `e`, in registration order.
    pub fn event_modules(&self, e: RegisterType) -> (r: Vec<RuntimeModuleId>)
        ensures
            r@ == self.spec_event_ids(e),
    {
        let mut out: Vec<RuntimeModuleId> = Vec::new();
        match self.events_to_ids.get(&e.key()) {
            Some(v) => {
                let mut i: usize = 0;
                while i < v.len()
                    invariant
                        i <= v@.len(),
                        out@ == v@.take(i as int),
                    decreases v@.len() - i,
                {
                    out.push(v[i]);
                    assert(out@ =~= v@.take((i + 1) as int));
                    i = i + 1;
                }
                assert(out@ =~= v@);
            }
            None => {}
        }
        out
    }

    /// Whether `id` is a registered module.
    pub fn has_module(&self, id: RuntimeModuleId) -> (r: bool)
        ensures
            r == self.spec_has_module(id),
    {
        self.ids_to_events.contains_key(&id.key())
    }

    /// An empty table: nothing registered anywhere.
    pub fn new() -> (r: ModuleIds)
        ensures
            r.wf(),
            forall|e: RegisterType| #[trigger] r.spec_event_ids(e) == Seq::<RuntimeModuleId>::empty(),
            forall|id: RuntimeModuleId| !(#[trigger] r.spec_has_module(id)),
    {
        ModuleIds { events_to_ids: HashMap::new(), ids_to_events: HashMap::new() }
    }
}


/// Removing an id that is not there changes nothing.
pub proof fn lemma_seq_without_absent(s: Seq<RuntimeModuleId>, id: RuntimeModuleId)
    requires
        !s.contains(id),
    ensures
        seq_without(s, id) == s,
    decreases s.len(),
{
    if s.len() > 0 {
        assert(s[0] != id);
        assert forall|k: int| 0 <= k < s.skip(1).len() implies s.skip(1)[k] != id by {
            assert(s[k + 1] == s.skip(1)[k]);
        }
        assert(!s.skip(1).contains(id));
        lemma_seq_without_absent(s.skip(1), id);
        assert(seq_without(s, id) =~= s);
    }
}

/// Distinct event kinds have distinct keys.
pub proof fn lemma_register_type_key_inj(a: RegisterType, b: RegisterType)
    ensures
        a.spec_key() == b.spec_key() ==> a == b,
{
}

/// Distinct module ids have distinct keys.
pub proof fn lemma_module_key_inj(a: RuntimeModuleId, b: RuntimeModuleId)
    ensures
        a.spec_key() == b.spec_key() ==> a == b,
{
}

/// Membership in a list with one element appended.
pub proof fn lemma_contains_push<A>(s: Seq<A>, x: A, y: A)
    ensures
        s.push(x).contains(y) <==> s.contains(y) || y == x,
{
    if s.push(x).contains(y) {
        let k = choose|k: int| 0 <= k < s.push(x).len() && s.push(x)[k] == y;
        if k < s.len() {
            assert(s[k] == y);
            assert(s.contains(y));
        }
    }
    if s.contains(y) {
        let k = choose|k: int| 0 <= k < s.len() && s[k] == y;
        assert(s.push(x)[k] == y);
    }
    assert(s.push(x)[s.len() as int] == x);
}

/// Linear membership scan of a module-id list.
fn contains_id(v: &Vec<RuntimeModuleId>, id: RuntimeModuleId) -> (r: bool)
    ensures
        r == v@.contains(id),
{
    let mut i: usize = 0;
    while i < v.len()
        invariant
            i <= v@.len(),
            forall|k: int| 0 <= k < i ==> v@[k] != id,
        decreases v@.len() - i,
    {
        if v[i] == id {
            return true;
        }
        i = i + 1;
    }
    false
}

/// A copy of `v` with every occurrence of `id` removed, order kept.
fn remove_id(v: Vec<RuntimeModuleId>, id: RuntimeModuleId) -> (r: Vec<RuntimeModuleId>)
    ensures
        r@ == seq_without(v@, id),
{
    let mut out: Vec<RuntimeModuleId> = Vec::new();
    let mut i: usize = 0;
    proof {
        assert(v@.take(0) =~= Seq::<RuntimeModuleId>::empty());
    }
    while i < v.len()
        invariant
            i <= v@.len(),
            out@ == seq_without(v@.take(i as int), id),
        decreases v@.len() - i,
    {
        proof {
            lemma_seq_without_snoc(v@.take(i as int), v@[i as int], id);
            assert(v@.take(i as int).push(v@[i as int]) =~= v@.take(i + 1));
        }
        let ghost out_pre = out@;
        if !(v[i] == id) {
            out.push(v[i]);
            assert(out@ =~= out_pre + seq![v@[i as int]]);
        } else {
            assert(out@ =~= out_pre + Seq::<RuntimeModuleId>::empty());
        }
        i = i + 1;
    }
    proof {
        assert(v@.take(v@.len() as int) =~= v@);
    }
    out
}

impl ModuleIds {
    /// Registers a not-yet-registered module for the given event kinds:
    /// the module joins the end of each named kind's list, once, and its
    /// kinds are recorded for later teardown.  All other modules' entries
    /// are untouched.
    #[verifier::rlimit(100)]
    pub fn register_module(&mut self, id: RuntimeModuleId, events: Vec<RegisterType>)
        requires
            old(self).wf(),
            !old(self).spec_has_module(id),
        ensures
            final(self).wf(),
            final(self).spec_has_module(id),
            final(self).spec_module_events(id) == events@,
            forall|id2: RuntimeModuleId|
                id2 != id ==> #[trigger] final(self).spec_has_module(id2) == old(
                    self,
                ).spec_has_module(id2) && final(self).spec_module_events(id2) == old(
                    self,
                ).spec_module_events(id2),
            forall|e: RegisterType|
                #[trigger] final(self).spec_event_ids(e) == (if events@.contains(e) {
                    old(self).spec_event_ids(e).push(id)
                } else {
                    old(self).spec_event_ids(e)
                }),
    {
        let ghost old_self = *self;
        proof {
            assert forall|e: RegisterType| !(#[trigger] old_self.spec_event_ids(e).contains(
                id,
            )) by {
                if old_self.spec_event_ids(e).contains(id) {
                    assert(old_self.spec_has_module(id));
                }
            }
            assert(events@.take(0) =~= Seq::<RegisterType>::empty());
        }
        let mut i: usize = 0;
        while i < events.len()
            invariant
                i <= events@.len(),
                self.ids_to_events@ == old_self.ids_to_events@,
                forall|e: RegisterType|
                    #[trigger] self.spec_event_ids(e) == (if events@.take(i as int).contains(e) {
                        old_self.spec_event_ids(e).push(id)
                    } else {
                        old_self.spec_event_ids(e)
                    }),
                forall|e: RegisterType| !(#[trigger] old_self.spec_event_ids(e).contains(id)),
            decreases events@.len() - i,
        {
            let ghost self_pre = *self;
            let e = events[i];
            let k = e.key();
            let mut v = match self.events_to_ids.remove(&k) {
                Some(v) => v,
                None => Vec::new(),
            };
            proof {
                assert(v@ == self_pre.spec_event_ids(e));
            }
            let ghost v_pre = v@;
            if !contains_id(&v, id) {
                v.push(id);
            }
            self.events_to_ids.insert(k, v);
            proof {
                assert forall|e2: RegisterType|
                    #[trigger] self.spec_event_ids(e2) == (if events@.take(i + 1).contains(e2) {
                        old_self.spec_event_ids(e2).push(id)
                    } else {
                        old_self.spec_event_ids(e2)
                    }) by {
                    lemma_register_type_key_inj(e2, e);
                    assert(events@.take(i + 1) =~= events@.take(i as int).push(
                        events@[i as int],
                    ));
                    lemma_contains_push(events@.take(i as int), events@[i as int], e2);
                    if e2 == e {
                        assert(self.spec_event_ids(e2) == (if v_pre.contains(id) {
                            v_pre
                        } else {
                            v_pre.push(id)
                        }));
                        if v_pre.contains(id) {
                            assert(events@.take(i as int).contains(e));
                        } else {
                            if events@.take(i as int).contains(e) {
                                let n = old_self.spec_event_ids(e).len() as int;
                                assert(v_pre[n] == id);
                                assert(v_pre.contains(id));
                            }
                        }
                    } else {
                        assert(e2.spec_key() != e.spec_key());
                        assert(self.spec_event_ids(e2) == self_pre.spec_event_ids(e2));
                    }
                }
            }
            i = i + 1;
        }
        proof {
            assert(events@.take(events@.len() as int) =~= events@);
        }
        let ghost self_loop = *self;
        self.ids_to_events.insert(id.key(), events);
        proof {
            assert forall|e: RegisterType| #[trigger] self.spec_event_ids(e)
                == self_loop.spec_event_ids(e) by {}
            assert forall|e: RegisterType|
                #[trigger] self.spec_event_ids(e) == (if events@.contains(e) {
                    old_self.spec_event_ids(e).push(id)
                } else {
                    old_self.spec_event_ids(e)
                }) by {}
            assert forall|id2: RuntimeModuleId| id2 != id implies #[trigger] self.spec_has_module(
                id2,
            ) == old_self.spec_has_module(id2) && self.spec_module_events(id2)
                == old_self.spec_module_events(id2) by {
                lemma_module_key_inj(id2, id);
            }
            assert forall|e: RegisterType, id2: RuntimeModuleId|
                #[trigger] self.spec_event_ids(e).contains(id2) <==> self.spec_has_module(id2)
                    && self.spec_module_events(id2).contains(e) by {
                lemma_module_key_inj(id2, id);
                if id2 == id {
                    if events@.contains(e) {
                        let n = old_self.spec_event_ids(e).len() as int;
                        assert(self.spec_event_ids(e)[n] == id);
                        assert(self.spec_event_ids(e).contains(id));
                    } else {
                        if self.spec_event_ids(e).contains(id) {
                            assert(old_self.spec_event_ids(e).contains(id));
                        }
                    }
                } else {
                    if self.spec_event_ids(e).contains(id2) {
                        if events@.contains(e) {
                            let m = choose|m: int|
                                0 <= m < self.spec_event_ids(e).len() && self.spec_event_ids(
                                    e,
                                )[m] == id2;
                            assert(old_self.spec_event_ids(e)[m] == id2);
                            assert(old_self.spec_event_ids(e).contains(id2));
                        } else {
                            assert(old_self.spec_event_ids(e).contains(id2));
                        }
                    }
                    if old_self.spec_event_ids(e).contains(id2) {
                        let m = choose|m: int|
                            0 <= m < old_self.spec_event_ids(e).len() && old_self.spec_event_ids(
                                e,
                            )[m] == id2;
                        assert(self.spec_event_ids(e)[m] == id2);
                        assert(self.spec_event_ids(e).contains(id2));
                    }
                }
            }
            assert forall|e: RegisterType, x: int, y: int|
                0 <= x < y < self.spec_event_ids(e).len() implies #[trigger] self.spec_event_ids(
                e,
            )[x] != #[trigger] self.spec_event_ids(e)[y] by {
                if events@.contains(e) {
                    let n = old_self.spec_event_ids(e).len() as int;
                    if y < n {
                        assert(old_self.spec_event_ids(e)[x] == self.spec_event_ids(e)[x]);
                        assert(old_self.spec_event_ids(e)[y] == self.spec_event_ids(e)[y]);
                    } else {
                        assert(y == n);
                        assert(self.spec_event_ids(e)[y] == id);
                        assert(old_self.spec_event_ids(e)[x] == self.spec_event_ids(e)[x]);
                        if self.spec_event_ids(e)[x] == id {
                            assert(old_self.spec_event_ids(e).contains(id));
                        }
                    }
                }
            }
        }
    }

    /// Unregisters a module: its record is dropped and it is removed from
    /// every event kind's list, restoring the mirror exactly.  A module
    /// that was never registered leaves the table untouched.
    #[verifier::rlimit(100)]
    pub fn unregister_module(&mut self, id: RuntimeModuleId)
        requires
            old(self).wf(),
        ensures
            final(self).wf(),
            !final(self).spec_has_module(id),
            forall|id2: RuntimeModuleId|
                id2 != id ==> #[trigger] final(self).spec_has_module(id2) == old(
                    self,
                ).spec_has_module(id2) && final(self).spec_module_events(id2) == old(
                    self,
                ).spec_module_events(id2),
            forall|e: RegisterType|
                #[trigger] final(self).spec_event_ids(e) == seq_without(
                    old(self).spec_event_ids(e),
                    id,
                ),
    {
        let ghost old_self = *self;
        let evs = match self.ids_to_events.remove(&id.key()) {
            Some(v) => v,
            None => {
                proof {
                    assert forall|e: RegisterType|
                        #[trigger] self.spec_event_ids(e) == seq_without(
                            old_self.spec_event_ids(e),
                            id,
                        ) by {
                        if old_self.spec_event_ids(e).contains(id) {
                            assert(old_self.spec_has_module(id));
                        }
                        lemma_seq_without_absent(old_self.spec_event_ids(e), id);
                    }
                    assert forall|id2: RuntimeModuleId| id2 != id implies
                        #[trigger] self.spec_has_module(id2) == old_self.spec_has_module(id2)
                        && self.spec_module_events(id2) == old_self.spec_module_events(id2) by {
                        lemma_module_key_inj(id2, id);
                    }
                }
                return ;
            }
        };
        proof {
            assert(evs@.take(0) =~= Seq::<RegisterType>::empty());
        }
        let ghost mid_self = *self;
        let mut i: usize = 0;
        while i < evs.len()
            invariant
                i <= evs@.len(),
                self.ids_to_events@ == mid_self.ids_to_events@,
                forall|e: RegisterType|
                    #[trigger] self.spec_event_ids(e) == (if evs@.take(i as int).contains(e) {
                        seq_without(old_self.spec_event_ids(e), id)
                    } else {
                        old_self.spec_event_ids(e)
                    }),
            decreases evs@.len() - i,
        {
            let ghost self_pre = *self;
            let e = evs[i];
            let k = e.key();
            let v = match self.events_to_ids.remove(&k) {
                Some(v) => v,
                None => Vec::new(),
            };
            proof {
                assert(v@ == self_pre.spec_event_ids(e));
            }
            let ghost v_pre = v@;
            let v2 = remove_id(v, id);
            self.events_to_ids.insert(k, v2);
            proof {
                assert forall|e2: RegisterType|
                    #[trigger] self.spec_event_ids(e2) == (if evs@.take(i + 1).contains(e2) {
                        seq_without(old_self.spec_event_ids(e2), id)
                    } else {
                        old_self.spec_event_ids(e2)
                    }) by {
                    lemma_register_type_key_inj(e2, e);
                    assert(evs@.take(i + 1) =~= evs@.take(i as int).push(evs@[i as int]));
                    lemma_contains_push(evs@.take(i as int), evs@[i as int], e2);
                    if e2 == e {
                        assert(self.spec_event_ids(e2) == seq_without(v_pre, id));
                        if evs@.take(i as int).contains(e) {
                            assert(v_pre == seq_without(old_self.spec_event_ids(e), id));
                            lemma_seq_without_membership(old_self.spec_event_ids(e), id, id);
                            assert(!v_pre.contains(id));
                            lemma_seq_without_absent(v_pre, id);
                        }
                    } else {
                        assert(e2.spec_key() != e.spec_key());
                        assert(self.spec_event_ids(e2) == self_pre.spec_event_ids(e2));
                    }
                }
            }
            i = i + 1;
        }
        proof {
            assert(evs@.take(evs@.len() as int) =~= evs@);
            assert forall|e: RegisterType|
                #[trigger] self.spec_event_ids(e) == (if evs@.contains(e) {
                    seq_without(old_self.spec_event_ids(e), id)
                } else {
                    old_self.spec_event_ids(e)
                }) by {}
            assert forall|e: RegisterType|
                #[trigger] self.spec_event_ids(e) == seq_without(
                    old_self.spec_event_ids(e),
                    id,
                ) by {
                if !evs@.contains(e) {
                    if old_self.spec_event_ids(e).contains(id) {
                        assert(old_self.spec_has_module(id));
                        assert(old_self.spec_module_events(id).contains(e));
                        assert(old_self.spec_module_events(id) == evs@);
                    }
                    lemma_seq_without_absent(old_self.spec_event_ids(e), id);
                }
            }
            assert forall|id2: RuntimeModuleId| id2 != id implies #[trigger] self.spec_has_module(
                id2,
            ) == old_self.spec_has_module(id2) && self.spec_module_events(id2)
                == old_self.spec_module_events(id2) by {
                lemma_module_key_inj(id2, id);
            }
            assert forall|e: RegisterType, id2: RuntimeModuleId|
                #[trigger] self.spec_event_ids(e).contains(id2) <==> self.spec_has_module(id2)
                    && self.spec_module_events(id2).contains(e) by {
                lemma_module_key_inj(id2, id);
                lemma_seq_without_membership(old_self.spec_event_ids(e), id, id2);
            }
            assert forall|e: RegisterType, x: int, y: int|
                0 <= x < y < self.spec_event_ids(e).len() implies #[trigger] self.spec_event_ids(
                e,
            )[x] != #[trigger] self.spec_event_ids(e)[y] by {
                lemma_seq_without_nodup(old_self.spec_event_ids(e), id, x, y);
            }
        }
    }
}

/// Removal keeps a duplicate-free list duplicate-free.
pub proof fn lemma_seq_without_nodup(s: Seq<RuntimeModuleId>, id: RuntimeModuleId, x: int, y: int)
    requires
        forall|i: int, j: int| 0 <= i < j < s.len() ==> #[trigger] s[i] != #[trigger] s[j],
        0 <= x < y < seq_without(s, id).len(),
    ensures
        seq_without(s, id)[x] != seq_without(s, id)[y],
    decreases s.len(),
{
    if s.len() > 0 {
        let head: Seq<RuntimeModuleId> = if s[0] == id {
            Seq::empty()
        } else {
            seq![s[0]]
        };
        let rest = seq_without(s.skip(1), id);
        assert(seq_without(s, id) == head + rest);
        assert forall|i: int, j: int| 0 <= i < j < s.skip(1).len() implies #[trigger] s.skip(
            1,
        )[i] != #[trigger] s.skip(1)[j] by {
            assert(s.skip(1)[i] == s[i + 1]);
            assert(s.skip(1)[j] == s[j + 1]);
        }
        if x >= head.len() {
            lemma_seq_without_nodup(s.skip(1), id, x - head.len(), y - head.len());
        } else {
            assert(seq_without(s, id)[x] == s[0]);
            assert(seq_without(s, id)[y] == rest[y - 1]);
            lemma_seq_without_in_seq(s.skip(1), id, y - 1);
            assert(s.skip(1).contains(rest[y - 1]));
            let m = choose|m: int| 0 <= m < s.skip(1).len() && s.skip(1)[m] == rest[y - 1];
            assert(s[m + 1] == rest[y - 1]);
        }
    }
}

/// Every element of the removal's result came from the list.
pub proof fn lemma_seq_without_in_seq(s: Seq<RuntimeModuleId>, id: RuntimeModuleId, k: int)
    requires
        0 <= k < seq_without(s, id).len(),
    ensures
        s.contains(seq_without(s, id)[k]),
    decreases s.len(),
{
    if s.len() > 0 {
        let head: Seq<RuntimeModuleId> = if s[0] == id {
            Seq::empty()
        } else {
            seq![s[0]]
        };
        let rest = seq_without(s.skip(1), id);
        assert(seq_without(s, id) == head + rest);
        if k < head.len() {
            assert(seq_without(s, id)[k] == s[0]);
            assert(s.contains(s[0]));
        } else {
            lemma_seq_without_in_seq(s.skip(1), id, k - head.len());
            assert(s.skip(1).contains(rest[k - head.len()]));
            let m = choose|m: int|
                0 <= m < s.skip(1).len() && s.skip(1)[m] == rest[k - head.len()];
            assert(s[m + 1] == rest[k - head.len()]);
            assert(s.contains(seq_without(s, id)[k]));
        }
    }
}

} // verus!
