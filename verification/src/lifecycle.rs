//! The life of a mapping, step by step.
//!
//! Whoever holds the mapping makes the system calls; what to call next, and
//! what each outcome means, is decided here. The device is opened, the region
//! is mapped and the device is closed again; the mapping is then active until
//! its holder lets it go, and the region is unmapped, once. Where the device
//! cannot be opened or the region cannot be mapped, the mapping has failed and
//! nothing is left to undo.

use crate::mapping::{Mapping, MappingView, UnmapRequest};
use crate::plan::{frame_offset, lemma_frame, DeviceAccess, MapPlan, MapRequest, PlanView};
use vstd::prelude::*;

verus! {

/// Why a mapping could not be made.
#[derive(Clone, Copy, Debug, PartialEq, Eq)]
pub enum MapError {
    /// The device could not be opened.
    DeviceUnavailable { os_error: i32 },
    /// The operating system did not map the region.
    MapRefused { os_error: i32 },
}

/// What has happened since the last step.
#[derive(Clone, Copy, Debug, PartialEq, Eq)]
pub enum Event {
    /// The device is open.
    DeviceOpened,
    /// The device could not be opened.
    DeviceUnavailable { os_error: i32 },
    /// The region is mapped and starts at `base`.
    Mapped { base: usize },
    /// The region was not mapped.
    MapRefused { os_error: i32 },
    /// The holder of the mapping lets it go.
    ScopeEnded,
    /// The call that unmaps the region has returned.
    Unmapped { ok: bool },
}

/// What to do next.
#[derive(Clone, Copy, Debug, PartialEq, Eq)]
pub enum Action {
    /// Open the device that stands for physical memory.
    OpenDevice(DeviceAccess),
    /// Map a region of the open device.
    MapRegion(MapRequest),
    /// Close the device: the mapping does not need it any more.
    CloseDevice,
    /// Unmap the region.
    Unmap(UnmapRequest),
    /// Nothing.
    Nothing,
}

/// The state of a mapping as a mathematical value.
pub enum LifecycleView {
    AwaitingDevice(PlanView),
    AwaitingRegion(PlanView),
    Active(MappingView),
    Releasing,
    Released,
    Failed(MapError),
}

impl LifecycleView {
    /// The plan or the mapping that the state holds is well formed.
    pub open spec fn wf(self) -> bool {
        match self {
            LifecycleView::AwaitingDevice(plan) => plan.wf(),
            LifecycleView::AwaitingRegion(plan) => plan.wf(),
            LifecycleView::Active(mapping) => mapping.wf(),
            _ => true,
        }
    }

    /// Nothing follows this state.
    pub open spec fn is_final(self) -> bool {
        self is Released || self is Failed
    }
}

/// A region that was mapped lies in the address space.
pub open spec fn admissible(state: LifecycleView, event: Event) -> bool {
    match (state, event) {
        (LifecycleView::AwaitingRegion(plan), Event::Mapped { base }) => base + plan.map_len()
            <= usize::MAX,
        _ => true,
    }
}

/// The state that follows `state` on `event`, and what to do then. An event
/// that the state does not wait for changes nothing and asks for nothing.
pub open spec fn transition(state: LifecycleView, event: Event) -> (LifecycleView, Action) {
    match (state, event) {
        (LifecycleView::AwaitingDevice(plan), Event::DeviceOpened) => (
            LifecycleView::AwaitingRegion(plan),
            Action::MapRegion(plan.request()),
        ),
        (LifecycleView::AwaitingDevice(_), Event::DeviceUnavailable { os_error }) => (
            LifecycleView::Failed(MapError::DeviceUnavailable { os_error }),
            Action::Nothing,
        ),
        (LifecycleView::AwaitingRegion(plan), Event::Mapped { base }) => (
            LifecycleView::Active(plan.mapping(base as int)),
            Action::CloseDevice,
        ),
        (LifecycleView::AwaitingRegion(_), Event::MapRefused { os_error }) => (
            LifecycleView::Failed(MapError::MapRefused { os_error }),
            Action::CloseDevice,
        ),
        (LifecycleView::Active(mapping), Event::ScopeEnded) => (
            LifecycleView::Releasing,
            Action::Unmap(mapping.unmap_request()),
        ),
        (LifecycleView::Releasing, Event::Unmapped { .. }) => (
            LifecycleView::Released,
            Action::Nothing,
        ),
        _ => (state, Action::Nothing),
    }
}

/// The state of a mapping.
#[derive(Debug, PartialEq, Eq)]
pub enum Lifecycle {
    /// The device is being opened.
    AwaitingDevice(MapPlan),
    /// The device is open and the region is being mapped.
    AwaitingRegion(MapPlan),
    /// The region is mapped: transfers go through the mapping.
    Active(Mapping),
    /// The region is being unmapped.
    Releasing,
    /// The region is unmapped.
    Released,
    /// The mapping was not made.
    Failed(MapError),
}

impl View for Lifecycle {
    type V = LifecycleView;

    open spec fn view(&self) -> LifecycleView {
        match self {
            Lifecycle::AwaitingDevice(plan) => LifecycleView::AwaitingDevice(plan@),
            Lifecycle::AwaitingRegion(plan) => LifecycleView::AwaitingRegion(plan@),
            Lifecycle::Active(mapping) => LifecycleView::Active(mapping@),
            Lifecycle::Releasing => LifecycleView::Releasing,
            Lifecycle::Released => LifecycleView::Released,
            Lifecycle::Failed(error) => LifecycleView::Failed(*error),
        }
    }
}

impl Lifecycle {
    /// Starts the mapping of `len` bytes of physical memory from
    /// `physical_addr` on, for a system whose pages have `page_size` bytes.
    /// The first thing to do is to open the device.
    pub fn begin(physical_addr: usize, len: usize, page_size: usize) -> (started: (
        Lifecycle,
        Action,
    ))
        requires
            len > 0,
            page_size > 0,
            len + frame_offset(physical_addr as int, page_size as int) <= usize::MAX,
        ensures
            started.0@ == LifecycleView::AwaitingDevice(
                PlanView {
                    physical_addr: physical_addr as int,
                    len: len as int,
                    page_size: page_size as int,
                },
            ),
            started.0@.wf(),
            started.1 == Action::OpenDevice(
                DeviceAccess { read: true, write: true, synchronous: true },
            ),
    {
        let plan = MapPlan::new(physical_addr, len, page_size);
        let access = plan.device_access();
        (Lifecycle::AwaitingDevice(plan), Action::OpenDevice(access))
    }

    /// Takes in `event` and says what to do next.
    pub fn step(self, event: Event) -> (next: (Lifecycle, Action))
        requires
            admissible(self@, event),
        ensures
            (next.0@, next.1) == transition(self@, event),
            next.0@.wf(),
    {
        proof {
            match &self {
                Lifecycle::AwaitingDevice(plan) => use_type_invariant(plan),
                Lifecycle::AwaitingRegion(plan) => use_type_invariant(plan),
                Lifecycle::Active(mapping) => use_type_invariant(mapping),
                _ => {},
            }
        }
        match self {
            Lifecycle::AwaitingDevice(plan) => match event {
                Event::DeviceOpened => {
                    let request = plan.request();
                    (Lifecycle::AwaitingRegion(plan), Action::MapRegion(request))
                },
                Event::DeviceUnavailable { os_error } => (
                    Lifecycle::Failed(MapError::DeviceUnavailable { os_error }),
                    Action::Nothing,
                ),
                _ => (Lifecycle::AwaitingDevice(plan), Action::Nothing),
            },
            Lifecycle::AwaitingRegion(plan) => match event {
                Event::Mapped { base } => {
                    let mapping = Mapping::new(&plan, base);
                    (Lifecycle::Active(mapping), Action::CloseDevice)
                },
                Event::MapRefused { os_error } => (
                    Lifecycle::Failed(MapError::MapRefused { os_error }),
                    Action::CloseDevice,
                ),
                _ => (Lifecycle::AwaitingRegion(plan), Action::Nothing),
            },
            Lifecycle::Active(mapping) => match event {
                Event::ScopeEnded => {
                    let request = mapping.unmap_request();
                    (Lifecycle::Releasing, Action::Unmap(request))
                },
                _ => (Lifecycle::Active(mapping), Action::Nothing),
            },
            Lifecycle::Releasing => match event {
                Event::Unmapped { .. } => (Lifecycle::Released, Action::Nothing),
                _ => (Lifecycle::Releasing, Action::Nothing),
            },
            Lifecycle::Released => (Lifecycle::Released, Action::Nothing),
            Lifecycle::Failed(error) => (Lifecycle::Failed(error), Action::Nothing),
        }
    }
}

/// Reads `dst.len()` bytes through a mapping made for this one transfer, and
/// lets the mapping go. `life` is the mapping once its making has ended, and
/// `region` holds the bytes of the mapped region. Where the mapping was made,
/// the bytes are in `dst` and the region is to be unmapped; where it was not,
/// the error is returned and `dst` is as before.
pub fn read_into_slice(life: Lifecycle, region: &[u8], dst: &mut [u8]) -> (done: Result<
    (Lifecycle, Action),
    MapError,
>)
    requires
        life@ is Active || life@ is Failed,
        life@ matches LifecycleView::Active(mapping) ==> region.len() == mapping.len && old(
            dst,
        ).len() <= mapping.slice_max_len,
    ensures
        life@ matches LifecycleView::Active(mapping) ==> {
            &&& done matches Ok(next)
            &&& next.0@ == LifecycleView::Releasing
            &&& next.1 == Action::Unmap(mapping.unmap_request())
            &&& final(dst)@ == mapping.read(region@, old(dst)@.len() as int)
        },
        life@ matches LifecycleView::Failed(error) ==> {
            &&& done == Err::<(Lifecycle, Action), MapError>(error)
            &&& final(dst)@ == old(dst)@
        },
{
    match life {
        Lifecycle::Active(mapping) => {
            mapping.copy_into_slice(region, dst);
            Ok(Lifecycle::Active(mapping).step(Event::ScopeEnded))
        },
        Lifecycle::Failed(error) => Err(error),
        _ => unreached(),
    }
}

/// Writes `src` through a mapping made for this one transfer, and lets the
/// mapping go. `life` is the mapping once its making has ended, and `region`
/// holds the bytes of the mapped region. Where the mapping was made, the
/// bytes are in the usable view and the region is to be unmapped; where it
/// was not, the error is returned and `region` is as before.
pub fn write_from_slice(life: Lifecycle, region: &mut [u8], src: &[u8]) -> (done: Result<
    (Lifecycle, Action),
    MapError,
>)
    requires
        life@ is Active || life@ is Failed,
        life@ matches LifecycleView::Active(mapping) ==> old(region).len() == mapping.len
            && src.len() <= mapping.slice_max_len,
    ensures
        life@ matches LifecycleView::Active(mapping) ==> {
            &&& done matches Ok(next)
            &&& next.0@ == LifecycleView::Releasing
            &&& next.1 == Action::Unmap(mapping.unmap_request())
            &&& final(region)@ == mapping.write(old(region)@, src@)
        },
        life@ matches LifecycleView::Failed(error) ==> {
            &&& done == Err::<(Lifecycle, Action), MapError>(error)
            &&& final(region)@ == old(region)@
        },
{
    match life {
        Lifecycle::Active(mut mapping) => {
            mapping.copy_from_slice(region, src);
            Ok(Lifecycle::Active(mapping).step(Event::ScopeEnded))
        },
        Lifecycle::Failed(error) => Err(error),
        _ => unreached(),
    }
}

/// Every step keeps the state well formed.
pub proof fn lemma_transition_keeps_wf(state: LifecycleView, event: Event)
    requires
        state.wf(),
        admissible(state, event),
    ensures
        transition(state, event).0.wf(),
{
    match state {
        LifecycleView::AwaitingRegion(plan) => lemma_frame(plan.physical_addr, plan.page_size),
        _ => {},
    }
}

/// The state after all of `events`, taken in one by one from `start` on, and
/// what was asked for after each.
pub open spec fn run(start: LifecycleView, events: Seq<Event>) -> (LifecycleView, Seq<Action>)
    decreases events.len(),
{
    if events.len() == 0 {
        (start, Seq::empty())
    } else {
        let before = run(start, events.drop_last());
        let last = transition(before.0, events.last());
        (last.0, before.1.push(last.1))
    }
}

/// How often `actions` asks to map a region.
pub open spec fn map_calls(actions: Seq<Action>) -> nat
    decreases actions.len(),
{
    if actions.len() == 0 {
        0
    } else if actions.last() is MapRegion {
        map_calls(actions.drop_last()) + 1
    } else {
        map_calls(actions.drop_last())
    }
}

/// How often `actions` asks to unmap a region.
pub open spec fn unmap_calls(actions: Seq<Action>) -> nat
    decreases actions.len(),
{
    if actions.len() == 0 {
        0
    } else if actions.last() is Unmap {
        unmap_calls(actions.drop_last()) + 1
    } else {
        unmap_calls(actions.drop_last())
    }
}

/// How often `actions` asks to close the device.
pub open spec fn close_calls(actions: Seq<Action>) -> nat
    decreases actions.len(),
{
    if actions.len() == 0 {
        0
    } else if actions.last() is CloseDevice {
        close_calls(actions.drop_last()) + 1
    } else {
        close_calls(actions.drop_last())
    }
}

/// How often a region was asked for on the way to `state`.
spec fn maps_behind(state: LifecycleView) -> nat {
    match state {
        LifecycleView::AwaitingDevice(_) => 0,
        LifecycleView::Failed(MapError::DeviceUnavailable { .. }) => 0,
        _ => 1,
    }
}

/// How often a region was let go on the way to `state`.
spec fn unmaps_behind(state: LifecycleView) -> nat {
    match state {
        LifecycleView::Releasing => 1,
        LifecycleView::Released => 1,
        _ => 0,
    }
}

/// How often the device was closed on the way to `state`.
spec fn closes_behind(state: LifecycleView) -> nat {
    match state {
        LifecycleView::AwaitingDevice(_) => 0,
        LifecycleView::AwaitingRegion(_) => 0,
        LifecycleView::Failed(MapError::DeviceUnavailable { .. }) => 0,
        _ => 1,
    }
}

/// Each event is answered by one action.
pub proof fn lemma_run_len(start: LifecycleView, events: Seq<Event>)
    ensures
        run(start, events).1.len() == events.len(),
    decreases events.len(),
{
    if events.len() > 0 {
        lemma_run_len(start, events.drop_last());
    }
}

/// What was asked for after the first events does not depend on the events
/// that follow.
pub proof fn lemma_run_prefix(start: LifecycleView, events: Seq<Event>, n: int)
    requires
        0 <= n <= events.len(),
    ensures
        run(start, events).1.len() == events.len(),
        run(start, events.take(n)).1 == run(start, events).1.take(n),
    decreases events.len(),
{
    lemma_run_len(start, events);
    if n == events.len() {
        assert(events.take(n) =~= events);
        assert(run(start, events).1.take(n) =~= run(start, events).1);
    } else {
        lemma_run_prefix(start, events.drop_last(), n);
        assert(events.drop_last().take(n) =~= events.take(n));
        assert(run(start, events.drop_last()).1.take(n) =~= run(start, events).1.take(n));
    }
}

/// Whatever happens, a region is asked for at most once and let go at most
/// once, and only a region that was asked for is let go. A mapping that is
/// active was asked for once and not let go; one that is released, or is
/// being released, was asked for once and let go once; for one that failed
/// nothing is let go.
pub proof fn lemma_one_map_one_unmap(plan: PlanView, events: Seq<Event>)
    ensures
        ({
            let (end, actions) = run(LifecycleView::AwaitingDevice(plan), events);
            &&& unmap_calls(actions) <= map_calls(actions) <= 1
            &&& end is Active ==> map_calls(actions) == 1 && unmap_calls(actions) == 0
            &&& end is Releasing ==> map_calls(actions) == 1 && unmap_calls(actions) == 1
            &&& end is Released ==> map_calls(actions) == 1 && unmap_calls(actions) == 1
            &&& end is Failed ==> unmap_calls(actions) == 0
        }),
{
    lemma_calls_behind(plan, events);
}

/// Whatever happens, the device is closed at most once: not before it is
/// known whether the region was mapped, and once from then on. A device that
/// could not be opened is not closed.
pub proof fn lemma_device_closed_once(plan: PlanView, events: Seq<Event>)
    ensures
        ({
            let (end, actions) = run(LifecycleView::AwaitingDevice(plan), events);
            &&& close_calls(actions) <= 1
            &&& end is AwaitingDevice || end is AwaitingRegion ==> close_calls(actions) == 0
            &&& end is Active || end is Releasing || end is Released ==> close_calls(actions) == 1
            &&& end matches LifecycleView::Failed(MapError::DeviceUnavailable { .. })
                ==> close_calls(actions) == 0
            &&& end matches LifecycleView::Failed(MapError::MapRefused { .. }) ==> close_calls(
                actions,
            ) == 1
        }),
{
    lemma_calls_behind(plan, events);
}

/// How often each call was asked for on the way to a state is seen from the
/// state.
proof fn lemma_calls_behind(plan: PlanView, events: Seq<Event>)
    ensures
        map_calls(run(LifecycleView::AwaitingDevice(plan), events).1) == maps_behind(
            run(LifecycleView::AwaitingDevice(plan), events).0,
        ),
        unmap_calls(run(LifecycleView::AwaitingDevice(plan), events).1) == unmaps_behind(
            run(LifecycleView::AwaitingDevice(plan), events).0,
        ),
        close_calls(run(LifecycleView::AwaitingDevice(plan), events).1) == closes_behind(
            run(LifecycleView::AwaitingDevice(plan), events).0,
        ),
    decreases events.len(),
{
    if events.len() > 0 {
        lemma_calls_behind(plan, events.drop_last());
        let before = run(LifecycleView::AwaitingDevice(plan), events.drop_last());
        let last = transition(before.0, events.last());
        assert(before.1.push(last.1).drop_last() =~= before.1);
    }
}

/// A state on the way from the start with `plan`: the plan is still the same,
/// and an active mapping is the one that `plan` gives for the start of the
/// region that an earlier event reported.
spec fn on_the_way(plan: PlanView, events: Seq<Event>, state: LifecycleView) -> bool {
    match state {
        LifecycleView::AwaitingDevice(p) => p == plan,
        LifecycleView::AwaitingRegion(p) => p == plan,
        LifecycleView::Active(mapping) => exists|j: int|
            0 <= j < events.len() && #[trigger] events[j] is Mapped && mapping == plan.mapping(
                events[j]->base as int,
            ),
        _ => true,
    }
}

proof fn lemma_on_the_way(plan: PlanView, events: Seq<Event>)
    ensures
        on_the_way(plan, events, run(LifecycleView::AwaitingDevice(plan), events).0),
    decreases events.len(),
{
    if events.len() > 0 {
        let earlier = events.drop_last();
        lemma_on_the_way(plan, earlier);
        let before = run(LifecycleView::AwaitingDevice(plan), earlier).0;
        let after = run(LifecycleView::AwaitingDevice(plan), events).0;
        match after {
            LifecycleView::Active(mapping) => {
                if before is Active {
                    let j = choose|j: int|
                        0 <= j < earlier.len() && #[trigger] earlier[j] is Mapped && mapping
                            == plan.mapping(earlier[j]->base as int);
                    assert(events[j] == earlier[j]);
                } else {
                    assert(events[events.len() - 1] is Mapped);
                }
            },
            _ => {},
        }
    }
}

/// The region is asked for as the plan says, and the region that is let go is
/// the whole region that was mapped: it starts where an earlier event said
/// that the region starts, and has the length that was asked for.
pub proof fn lemma_calls_match(plan: PlanView, events: Seq<Event>, i: int)
    requires
        0 <= i < events.len(),
    ensures
        ({
            let actions = run(LifecycleView::AwaitingDevice(plan), events).1;
            &&& actions.len() == events.len()
            &&& actions[i] is MapRegion ==> actions[i] == Action::MapRegion(plan.request())
            &&& actions[i] is Unmap ==> exists|j: int|
                0 <= j < i && #[trigger] events[j] is Mapped && actions[i] == Action::Unmap(
                    plan.mapping(events[j]->base as int).unmap_request(),
                )
        }),
{
    let start = LifecycleView::AwaitingDevice(plan);
    lemma_run_prefix(start, events, i + 1);
    lemma_run_prefix(start, events, i);
    let upto = events.take(i + 1);
    let earlier = events.take(i);
    assert(upto.drop_last() =~= earlier);
    lemma_on_the_way(plan, earlier);
    let before = run(start, earlier).0;
    let actions = run(start, events).1;
    assert(actions[i] == run(start, upto).1[i]);
    assert(actions[i] == transition(before, events[i]).1);
    if actions[i] is Unmap {
        let mapping = before->Active_0;
        let j = choose|j: int|
            0 <= j < earlier.len() && #[trigger] earlier[j] is Mapped && mapping == plan.mapping(
                earlier[j]->base as int,
            );
        assert(events[j] == earlier[j]);
    }
}

/// Nothing follows a mapping that is released or has failed: whatever
/// happens, the state stays and nothing is asked for.
pub proof fn lemma_final_states_stay(state: LifecycleView, events: Seq<Event>)
    requires
        state.is_final(),
    ensures
        run(state, events).0 == state,
        run(state, events).1.len() == events.len(),
        forall|i: int| 0 <= i < events.len() ==> run(state, events).1[i] == Action::Nothing,
    decreases events.len(),
{
    if events.len() > 0 {
        lemma_final_states_stay(state, events.drop_last());
    }
}

/// A region that was let go is not used again: a mapping that is being
/// released, is released or has failed never becomes active, whatever
/// happens.
pub proof fn lemma_no_way_back(state: LifecycleView, events: Seq<Event>)
    requires
        state is Releasing || state.is_final(),
    ensures
        run(state, events).0 is Releasing || run(state, events).0.is_final(),
        !(run(state, events).0 is Active),
    decreases events.len(),
{
    if events.len() > 0 {
        lemma_no_way_back(state, events.drop_last());
    }
}

/// Where the device cannot be opened, the mapping has failed with that error
/// and nothing was mapped; nothing is unmapped then or later.
pub proof fn lemma_unopened_device_leaves_nothing(
    plan: PlanView,
    os_error: i32,
    later: Seq<Event>,
)
    ensures
        ({
            let failed = LifecycleView::Failed(MapError::DeviceUnavailable { os_error });
            &&& transition(
                LifecycleView::AwaitingDevice(plan),
                Event::DeviceUnavailable { os_error },
            ) == (failed, Action::Nothing)
            &&& run(failed, later).0 == failed
            &&& forall|i: int| 0 <= i < later.len() ==> run(failed, later).1[i] == Action::Nothing
        }),
{
    lemma_final_states_stay(LifecycleView::Failed(MapError::DeviceUnavailable { os_error }), later);
}

/// Whether or not the region could be unmapped, the mapping is released and
/// nothing more is asked for: letting go cannot fail.
pub proof fn lemma_release_cannot_fail(ok: bool)
    ensures
        transition(LifecycleView::Releasing, Event::Unmapped { ok }) == (
            LifecycleView::Released,
            Action::Nothing,
        ),
{
}

} // verus!
