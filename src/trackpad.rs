//! Slot assignment and the per-message state machine of the trackpad.
use vstd::prelude::*;

use crate::event::{
    legacy_report, report_legacy_and_tool, report_mt_slot, report_sync, slot_report, sync_report,
    DeviceEvent, NUM_SLOTS,
};
use crate::message::{DimensionsData, Message, Touch};

verus! {

/// A touch that currently holds a slot, with its last reported position.
#[derive(Clone, Copy, Debug, PartialEq, Eq, Structural)]
pub struct ActiveTouch {
    pub slot: usize,
    pub x: i32,
    pub y: i32,
}

/// Why a message was refused. A refused message leaves the trackpad as it was.
#[derive(Clone, Copy, Debug, PartialEq, Eq, Structural)]
pub enum TrackpadError {
    /// The touch id holds no slot and every slot is taken.
    SlotsExhausted(i32),
    /// A touch id was ended that holds no slot.
    UnknownTouch(i32),
}

/// What the device has to receive for one message: when `reset` is set, the
/// device is first registered anew with that geometry; then `events` are written.
#[derive(Debug)]
pub struct Frame {
    pub reset: Option<DimensionsData>,
    pub events: Vec<DeviceEvent>,
}

/// Mathematical state of a trackpad: the surface geometry, the touch id held
/// by each slot, and the active touches, oldest first.
pub struct TrackpadModel {
    pub dims: DimensionsData,
    pub slots: Seq<Option<i32>>,
    pub active: Seq<ActiveTouch>,
}

/// Lowest index of `slots` that holds `v`, or -1.
pub open spec fn first_slot_with(slots: Seq<Option<i32>>, v: Option<i32>) -> int
    decreases slots.len(),
{
    if slots.len() == 0 {
        -1
    } else {
        let k = first_slot_with(slots.drop_last(), v);
        if k >= 0 {
            k
        } else if slots.last() == v {
            slots.len() - 1
        } else {
            -1
        }
    }
}

/// Slot resolution: the slot that already holds `id` (not new), else the lowest
/// free slot (new), else none.
pub open spec fn slot_for_id(slots: Seq<Option<i32>>, id: i32) -> Option<(int, bool)> {
    let held = first_slot_with(slots, Some(id));
    let free = first_slot_with(slots, None);
    if held >= 0 {
        Some((held, false))
    } else if free >= 0 {
        Some((free, true))
    } else {
        None
    }
}

/// No touch id is held by two slots.
pub open spec fn slots_unique(slots: Seq<Option<i32>>) -> bool {
    forall|i: int, j: int|
        0 <= i < slots.len() && 0 <= j < slots.len() && (#[trigger] slots[i]) is Some
            && slots[i] == #[trigger] slots[j] ==> i == j
}

/// No two active touches share a slot.
pub open spec fn distinct_slots(active: Seq<ActiveTouch>) -> bool {
    forall|k1: int, k2: int|
        0 <= k1 < active.len() && 0 <= k2 < active.len() && (#[trigger] active[k1]).slot
            == (#[trigger] active[k2]).slot ==> k1 == k2
}

pub open spec fn has_entry(active: Seq<ActiveTouch>, s: int) -> bool {
    exists|k: int| 0 <= k < active.len() && (#[trigger] active[k]).slot == s
}

/// The state invariant: ten slots, ids unique among them, and exactly one active
/// touch for each occupied slot.
pub open spec fn model_wf(m: TrackpadModel) -> bool {
    &&& m.slots.len() == NUM_SLOTS
    &&& slots_unique(m.slots)
    &&& distinct_slots(m.active)
    &&& forall|k: int|
        0 <= k < m.active.len() ==> (#[trigger] m.active[k]).slot < NUM_SLOTS
            && m.slots[m.active[k].slot as int] is Some
    &&& forall|s: int| 0 <= s < NUM_SLOTS && (#[trigger] m.slots[s]) is Some ==> has_entry(m.active, s)
}

pub open spec fn empty_model(dims: DimensionsData) -> TrackpadModel {
    TrackpadModel { dims, slots: Seq::new(NUM_SLOTS as nat, |i: int| None), active: Seq::empty() }
}

pub open spec fn moved_to(a: ActiveTouch, e: ActiveTouch) -> ActiveTouch {
    if a.slot == e.slot { e } else { a }
}

/// The active touches with the entry of `e`'s slot replaced by `e`, order kept.
pub open spec fn retarget(active: Seq<ActiveTouch>, e: ActiveTouch) -> Seq<ActiveTouch> {
    active.map_values(|a: ActiveTouch| moved_to(a, e))
}

pub open spec fn not_in_slot(s: usize) -> spec_fn(ActiveTouch) -> bool {
    |a: ActiveTouch| a.slot != s
}

/// The active touches without the one in slot `s`, order kept.
pub open spec fn without_slot(active: Seq<ActiveTouch>, s: usize) -> Seq<ActiveTouch> {
    active.filter(not_in_slot(s))
}

/// The effect of one touch of an update.
pub open spec fn update_one(m: TrackpadModel, t: Touch) -> Result<
    (TrackpadModel, Seq<DeviceEvent>),
    TrackpadError,
> {
    match slot_for_id(m.slots, t.id) {
        None => Err(TrackpadError::SlotsExhausted(t.id)),
        Some((s, new)) => {
            let e = ActiveTouch { slot: s as usize, x: t.x, y: t.y };
            let active = if new {
                m.active.push(e)
            } else {
                retarget(m.active, e)
            };
            Ok(
                (
                    TrackpadModel { dims: m.dims, slots: m.slots.update(s, Some(t.id)), active },
                    slot_report(s as usize, Some(t)),
                ),
            )
        },
    }
}

/// The effect of ending one touch id.
pub open spec fn end_one(m: TrackpadModel, id: i32) -> Result<
    (TrackpadModel, Seq<DeviceEvent>),
    TrackpadError,
> {
    match slot_for_id(m.slots, id) {
        None => Err(TrackpadError::SlotsExhausted(id)),
        Some((s, true)) => Err(TrackpadError::UnknownTouch(id)),
        Some((s, false)) => Ok(
            (
                TrackpadModel {
                    dims: m.dims,
                    slots: m.slots.update(s, None),
                    active: without_slot(m.active, s as usize),
                },
                slot_report(s as usize, None),
            ),
        ),
    }
}

/// The touches of an update applied in order; the first refused one refuses all.
pub open spec fn update_all(m: TrackpadModel, ts: Seq<Touch>) -> Result<
    (TrackpadModel, Seq<DeviceEvent>),
    TrackpadError,
>
    decreases ts.len(),
{
    if ts.len() == 0 {
        Ok((m, Seq::empty()))
    } else {
        match update_one(m, ts[0]) {
            Err(x) => Err(x),
            Ok((m1, e1)) => match update_all(m1, ts.skip(1)) {
                Err(x) => Err(x),
                Ok((m2, e2)) => Ok((m2, e1 + e2)),
            },
        }
    }
}

/// The ids of an end message ended in order; the first refused one refuses all.
pub open spec fn end_all(m: TrackpadModel, ids: Seq<i32>) -> Result<
    (TrackpadModel, Seq<DeviceEvent>),
    TrackpadError,
>
    decreases ids.len(),
{
    if ids.len() == 0 {
        Ok((m, Seq::empty()))
    } else {
        match end_one(m, ids[0]) {
            Err(x) => Err(x),
            Ok((m1, e1)) => match end_all(m1, ids.skip(1)) {
                Err(x) => Err(x),
                Ok((m2, e2)) => Ok((m2, e1 + e2)),
            },
        }
    }
}

/// Position of the oldest active touch, if any.
pub open spec fn oldest(active: Seq<ActiveTouch>) -> Option<(i32, i32)> {
    if active.len() > 0 {
        Some((active[0].x, active[0].y))
    } else {
        None
    }
}

/// The events that close every frame: the single-pointer report, then a sync.
pub open spec fn closing_report(m: TrackpadModel) -> Seq<DeviceEvent> {
    legacy_report(oldest(m.active), m.active.len()) + sync_report()
}

/// One message processed: the new state, the geometry to register the device
/// with (on a dimensions update), and the events of the frame.
pub open spec fn step(m: TrackpadModel, msg: Message) -> Result<
    (TrackpadModel, Option<DimensionsData>, Seq<DeviceEvent>),
    TrackpadError,
> {
    match msg {
        Message::DimensionsUpdate(d) => Ok((empty_model(d), Some(d), closing_report(empty_model(d)))),
        Message::TouchUpdate(ts) => match update_all(m, ts@) {
            Err(x) => Err(x),
            Ok((m1, e)) => Ok((m1, None, e + closing_report(m1))),
        },
        Message::TouchEnd(ids) => match end_all(m, ids@) {
            Err(x) => Err(x),
            Ok((m1, e)) => Ok((m1, None, e + closing_report(m1))),
        },
    }
}

/// `r` with `acc` put before its events.
pub open spec fn with_prefix(
    acc: Seq<DeviceEvent>,
    r: Result<(TrackpadModel, Seq<DeviceEvent>), TrackpadError>,
) -> Result<(TrackpadModel, Seq<DeviceEvent>), TrackpadError> {
    match r {
        Err(x) => Err(x),
        Ok((m, e)) => Ok((m, acc + e)),
    }
}

/// `first_slot_with` is the lowest index holding `v`, and -1 exactly when none does.
pub proof fn lemma_first_slot_with(slots: Seq<Option<i32>>, v: Option<i32>)
    ensures
        -1 <= first_slot_with(slots, v) < slots.len(),
        first_slot_with(slots, v) == -1 <==> forall|j: int| 0 <= j < slots.len() ==> slots[j] != v,
        first_slot_with(slots, v) >= 0 ==> slots[first_slot_with(slots, v)] == v,
        forall|j: int| 0 <= j < first_slot_with(slots, v) ==> slots[j] != v,
    decreases slots.len(),
{
    if slots.len() > 0 {
        let init = slots.drop_last();
        lemma_first_slot_with(init, v);
        assert(forall|j: int| 0 <= j < init.len() ==> init[j] == slots[j]);
        if first_slot_with(init, v) == -1 && slots.last() != v {
            assert forall|j: int| 0 <= j < slots.len() implies slots[j] != v by {
                if j < init.len() {
                    assert(init[j] != v);
                }
            }
        }
    }
}

/// Exactly the index `i` is `first_slot_with(slots, v)` when `slots[i] == v` and
/// no lower index holds `v`.
pub proof fn lemma_first_slot_at(slots: Seq<Option<i32>>, v: Option<i32>, i: int)
    requires
        0 <= i < slots.len(),
        slots[i] == v,
        forall|j: int| 0 <= j < i ==> slots[j] != v,
    ensures
        first_slot_with(slots, v) == i,
{
    lemma_first_slot_with(slots, v);
}

/// Removing the touches of one slot keeps the others, in order, and no other.
pub proof fn lemma_without_slot(a: Seq<ActiveTouch>, s: usize)
    requires
        distinct_slots(a),
    ensures
        distinct_slots(without_slot(a, s)),
        forall|k: int|
            0 <= k < without_slot(a, s).len() ==> a.contains(#[trigger] without_slot(a, s)[k])
                && without_slot(a, s)[k].slot != s,
        forall|j: int| 0 <= j < a.len() && (#[trigger] a[j]).slot != s ==> without_slot(a, s).contains(a[j]),
    decreases a.len(),
{
    reveal(Seq::filter);
    if a.len() > 0 {
        let init = a.drop_last();
        assert(forall|j: int| 0 <= j < init.len() ==> init[j] == a[j]);
        lemma_without_slot(init, s);
        let w = without_slot(init, s);
        assert(without_slot(a, s) == if a.last().slot != s { w.push(a.last()) } else { w });
        assert forall|k: int| 0 <= k < w.len() implies (#[trigger] w[k]).slot != a.last().slot by {
            assert(init.contains(w[k]));
            let j = choose|j: int| 0 <= j < init.len() && init[j] == w[k];
            assert(a[j] == w[k]);
        }
        assert forall|j: int| 0 <= j < a.len() && (#[trigger] a[j]).slot != s implies without_slot(
            a,
            s,
        ).contains(a[j]) by {
            if j < init.len() {
                assert(init[j] == a[j]);
                let k = choose|k: int| 0 <= k < w.len() && w[k] == init[j];
                if a.last().slot != s {
                    assert(without_slot(a, s)[k] == a[j]);
                }
            } else {
                assert(without_slot(a, s)[w.len() as int] == a[j]);
            }
        }
        assert forall|k: int| 0 <= k < without_slot(a, s).len() implies a.contains(
            #[trigger] without_slot(a, s)[k],
        ) && without_slot(a, s)[k].slot != s by {
            if k < w.len() {
                let j = choose|j: int| 0 <= j < init.len() && init[j] == w[k];
                assert(a[j] == w[k]);
            } else {
                assert(a[a.len() - 1] == a.last());
            }
        }
    }
}

/// Each touch of an update keeps the state invariant.
pub proof fn lemma_update_one_wf(m: TrackpadModel, t: Touch)
    requires
        model_wf(m),
        update_one(m, t) is Ok,
    ensures
        model_wf(update_one(m, t)->Ok_0.0),
{
    lemma_first_slot_with(m.slots, Some(t.id));
    lemma_first_slot_with(m.slots, None);
    let (s, new) = slot_for_id(m.slots, t.id)->Some_0;
    let e = ActiveTouch { slot: s as usize, x: t.x, y: t.y };
    let m2 = update_one(m, t)->Ok_0.0;
    if new {
        assert forall|k: int| 0 <= k < m.active.len() implies (#[trigger] m.active[k]).slot != s by {}
        assert forall|k: int| 0 <= k < m2.active.len() implies (#[trigger] m2.active[k]).slot
            < NUM_SLOTS && m2.slots[m2.active[k].slot as int] is Some by {
            if k < m.active.len() {
                assert(m2.active[k] == m.active[k]);
            }
        }
        assert forall|k1: int, k2: int|
            0 <= k1 < m2.active.len() && 0 <= k2 < m2.active.len() && (#[trigger] m2.active[k1]).slot
                == (#[trigger] m2.active[k2]).slot implies k1 == k2 by {
            if k1 < m.active.len() {
                assert(m2.active[k1] == m.active[k1]);
            }
            if k2 < m.active.len() {
                assert(m2.active[k2] == m.active[k2]);
            }
        }
        assert forall|s2: int| 0 <= s2 < NUM_SLOTS && (#[trigger] m2.slots[s2]) is Some implies has_entry(
            m2.active,
            s2,
        ) by {
            if s2 == s {
                assert(m2.active[m.active.len() as int].slot == s);
            } else {
                assert(m.slots[s2] is Some);
                let k = choose|k: int| 0 <= k < m.active.len() && (#[trigger] m.active[k]).slot == s2;
                assert(m2.active[k] == m.active[k]);
            }
        }
        assert forall|i: int, j: int|
            0 <= i < m2.slots.len() && 0 <= j < m2.slots.len() && (#[trigger] m2.slots[i]) is Some
                && m2.slots[i] == #[trigger] m2.slots[j] implies i == j by {
            if i != s && j != s {
                assert(m.slots[i] == m2.slots[i]);
                assert(m.slots[j] == m2.slots[j]);
            }
        }
    } else {
        assert(m2.slots =~= m.slots);
        assert forall|k: int| 0 <= k < m2.active.len() implies (#[trigger] m2.active[k]).slot
            == m.active[k].slot by {}
        assert forall|s2: int| 0 <= s2 < NUM_SLOTS && (#[trigger] m2.slots[s2]) is Some implies has_entry(
            m2.active,
            s2,
        ) by {
            let k = choose|k: int| 0 <= k < m.active.len() && (#[trigger] m.active[k]).slot == s2;
            assert(m2.active[k].slot == m.active[k].slot);
        }
        assert forall|k1: int, k2: int|
            0 <= k1 < m2.active.len() && 0 <= k2 < m2.active.len() && (#[trigger] m2.active[k1]).slot
                == (#[trigger] m2.active[k2]).slot implies k1 == k2 by {
            assert(m2.active[k1].slot == m.active[k1].slot);
            assert(m2.active[k2].slot == m.active[k2].slot);
        }
        assert forall|k: int| 0 <= k < m2.active.len() implies (#[trigger] m2.active[k]).slot
            < NUM_SLOTS && m2.slots[m2.active[k].slot as int] is Some by {
            assert(m2.active[k].slot == m.active[k].slot);
        }
    }
}

/// Each ended touch keeps the state invariant.
pub proof fn lemma_end_one_wf(m: TrackpadModel, id: i32)
    requires
        model_wf(m),
        end_one(m, id) is Ok,
    ensures
        model_wf(end_one(m, id)->Ok_0.0),
{
    lemma_first_slot_with(m.slots, Some(id));
    lemma_first_slot_with(m.slots, None);
    let (s, new) = slot_for_id(m.slots, id)->Some_0;
    let m2 = end_one(m, id)->Ok_0.0;
    lemma_without_slot(m.active, s as usize);
    assert forall|k: int| 0 <= k < m2.active.len() implies (#[trigger] m2.active[k]).slot
        < NUM_SLOTS && m2.slots[m2.active[k].slot as int] is Some by {
        let j = choose|j: int| 0 <= j < m.active.len() && m.active[j] == m2.active[k];
        assert(m.active[j].slot < NUM_SLOTS);
    }
    assert forall|s2: int| 0 <= s2 < NUM_SLOTS && (#[trigger] m2.slots[s2]) is Some implies has_entry(
        m2.active,
        s2,
    ) by {
        assert(m.slots[s2] is Some);
        let k = choose|k: int| 0 <= k < m.active.len() && (#[trigger] m.active[k]).slot == s2;
        assert(m2.active.contains(m.active[k]));
        let k2 = choose|k2: int| 0 <= k2 < m2.active.len() && m2.active[k2] == m.active[k];
        assert(m2.active[k2].slot == s2);
    }
    assert forall|i: int, j: int|
        0 <= i < m2.slots.len() && 0 <= j < m2.slots.len() && (#[trigger] m2.slots[i]) is Some
            && m2.slots[i] == #[trigger] m2.slots[j] implies i == j by {
        assert(m.slots[i] == m2.slots[i]);
        assert(m.slots[j] == m2.slots[j]);
    }
}

/// Engine of a virtual multitouch trackpad: assigns the client's touch ids to
/// the device's slots and works out the events that report each message.
pub struct UinputTrackpad {
    /// Geometry of the surface the touches are reported in.
    dimensions: DimensionsData,
    /// Touch id held by each slot.
    slots: Vec<Option<i32>>,
    /// Active touches and their last position, oldest first.
    active_touches: Vec<ActiveTouch>,
}

impl View for UinputTrackpad {
    type V = TrackpadModel;

    closed spec fn view(&self) -> TrackpadModel {
        TrackpadModel { dims: self.dimensions, slots: self.slots@, active: self.active_touches@ }
    }
}

fn free_slots() -> (r: Vec<Option<i32>>)
    ensures
        r@.len() == NUM_SLOTS,
        forall|i: int| 0 <= i < NUM_SLOTS ==> r@[i] is None,
{
    let mut slots: Vec<Option<i32>> = Vec::new();
    let mut i: usize = 0;
    while i < NUM_SLOTS
        invariant
            i <= NUM_SLOTS,
            slots@.len() == i,
            forall|j: int| 0 <= j < i ==> slots@[j] is None,
        decreases NUM_SLOTS - i,
    {
        slots.push(None);
        i += 1;
    }
    slots
}

impl UinputTrackpad {
    pub open spec fn wf(&self) -> bool {
        model_wf(self@)
    }

    /// A trackpad for a surface of the given geometry, with no touch active.
    /// The device itself is registered with `device_descriptor` of that geometry.
    pub fn new(width: i32, height: i32, resolution: i32) -> (r: UinputTrackpad)
        ensures
            r.wf(),
            r@ == empty_model(DimensionsData { width, height, resolution }),
    {
        let r = UinputTrackpad {
            dimensions: DimensionsData { width, height, resolution },
            slots: free_slots(),
            active_touches: Vec::new(),
        };
        assert(r@.slots =~= empty_model(r@.dims).slots);
        assert(r@.active =~= empty_model(r@.dims).active);
        r
    }

    /// Geometry of the surface, as last announced.
    pub fn dimensions(&self) -> (r: DimensionsData)
        ensures
            r == self@.dims,
    {
        self.dimensions
    }

    fn snapshot(&self) -> (r: UinputTrackpad)
        ensures
            r@ == self@,
    {
        let mut slots: Vec<Option<i32>> = Vec::new();
        let mut i: usize = 0;
        while i < self.slots.len()
            invariant
                i <= self.slots@.len(),
                slots@ == self.slots@.take(i as int),
            decreases self.slots@.len() - i,
        {
            slots.push(self.slots[i]);
            i += 1;
            assert(slots@ =~= self.slots@.take(i as int));
        }
        let mut active: Vec<ActiveTouch> = Vec::new();
        let mut k: usize = 0;
        while k < self.active_touches.len()
            invariant
                k <= self.active_touches@.len(),
                active@ == self.active_touches@.take(k as int),
            decreases self.active_touches@.len() - k,
        {
            active.push(self.active_touches[k]);
            k += 1;
            assert(active@ =~= self.active_touches@.take(k as int));
        }
        assert(slots@ =~= self.slots@);
        assert(active@ =~= self.active_touches@);
        UinputTrackpad { dimensions: self.dimensions, slots, active_touches: active }
    }

    /// Slot resolution for `tracking_id`: `(slot, false)` for the slot that
    /// already holds it, else `(slot, true)` for the lowest free slot, else
    /// `SlotsExhausted`.
    pub fn find_slot_for_id(&self, tracking_id: i32) -> (r: Result<(usize, bool), TrackpadError>)
        requires
            self.wf(),
        ensures
            match slot_for_id(self@.slots, tracking_id) {
                Some((s, new)) => r == Ok::<(usize, bool), TrackpadError>((s as usize, new)),
                None => r == Err::<(usize, bool), TrackpadError>(
                    TrackpadError::SlotsExhausted(tracking_id),
                ),
            },
    {
        proof {
            lemma_first_slot_with(self@.slots, Some(tracking_id));
            lemma_first_slot_with(self@.slots, None);
        }
        let mut i: usize = 0;
        while i < self.slots.len()
            invariant
                i <= self.slots@.len(),
                forall|j: int| 0 <= j < i ==> self.slots@[j] != Some(tracking_id),
            decreases self.slots@.len() - i,
        {
            match self.slots[i] {
                Some(id) => {
                    if id == tracking_id {
                        proof {
                            lemma_first_slot_at(self@.slots, Some(tracking_id), i as int);
                        }
                        return Ok((i, false));
                    }
                },
                None => {},
            }
            i += 1;
        }
        let mut i: usize = 0;
        while i < self.slots.len()
            invariant
                i <= self.slots@.len(),
                first_slot_with(self@.slots, Some(tracking_id)) == -1,
                forall|j: int| 0 <= j < i ==> self.slots@[j] != None::<i32>,
            decreases self.slots@.len() - i,
        {
            if self.slots[i].is_none() {
                proof {
                    lemma_first_slot_at(self@.slots, None, i as int);
                }
                return Ok((i, true));
            }
            i += 1;
        }
        Err(TrackpadError::SlotsExhausted(tracking_id))
    }

    /// Applies one touch of an update and appends its slot report to `events`.
    fn process_touch(&mut self, touch: Touch, events: &mut Vec<DeviceEvent>) -> (r: Result<
        (),
        TrackpadError,
    >)
        requires
            old(self).wf(),
        ensures
            final(self).wf(),
            match update_one(old(self)@, touch) {
                Ok((m, e)) => r is Ok && final(self)@ == m && final(events)@ == old(events)@ + e,
                Err(x) => r == Err::<(), TrackpadError>(x),
            },
    {
        proof {
            lemma_first_slot_with(self@.slots, Some(touch.id));
            lemma_first_slot_with(self@.slots, None);
        }
        let (slot, new_touch) = match self.find_slot_for_id(touch.id) {
            Ok(found) => found,
            Err(x) => {
                return Err(x);
            },
        };
        let ghost m0 = self@;
        proof {
            lemma_update_one_wf(m0, touch);
        }
        self.slots.set(slot, Some(touch.id));
        report_mt_slot(events, slot, Some(touch));
        let entry = ActiveTouch { slot, x: touch.x, y: touch.y };
        if new_touch {
            self.active_touches.push(entry);
        } else {
            let ghost a0 = self.active_touches@;
            let mut k: usize = 0;
            while k < self.active_touches.len()
                invariant
                    slot < m0.slots.len(),
                    entry.slot == slot,
                    self.dimensions == m0.dims,
                    self.slots@ == m0.slots.update(slot as int, Some(touch.id)),
                    self.active_touches@.len() == a0.len(),
                    k <= a0.len(),
                    forall|j: int| 0 <= j < k ==> self.active_touches@[j] == moved_to(a0[j], entry),
                    forall|j: int| k <= j < a0.len() ==> self.active_touches@[j] == a0[j],
                decreases a0.len() - k,
            {
                if self.active_touches[k].slot == slot {
                    self.active_touches.set(k, entry);
                }
                k += 1;
            }
            assert(self.active_touches@ =~= retarget(a0, entry));
        }
        Ok(())
    }

    /// Ends one touch id and appends the release of its slot to `events`.
    fn end_touch(&mut self, id: i32, events: &mut Vec<DeviceEvent>) -> (r: Result<(), TrackpadError>)
        requires
            old(self).wf(),
        ensures
            final(self).wf(),
            match end_one(old(self)@, id) {
                Ok((m, e)) => r is Ok && final(self)@ == m && final(events)@ == old(events)@ + e,
                Err(x) => r == Err::<(), TrackpadError>(x),
            },
    {
        let (slot, new_touch) = match self.find_slot_for_id(id) {
            Ok(found) => found,
            Err(x) => {
                return Err(x);
            },
        };
        if new_touch {
            return Err(TrackpadError::UnknownTouch(id));
        }
        let ghost m0 = self@;
        proof {
            lemma_first_slot_with(m0.slots, Some(id));
            lemma_end_one_wf(m0, id);
        }
        self.slots.set(slot, None);
        report_mt_slot(events, slot, None);
        let ghost a0 = self.active_touches@;
        let mut kept: Vec<ActiveTouch> = Vec::new();
        let mut k: usize = 0;
        while k < self.active_touches.len()
            invariant
                self.active_touches@ == a0,
                k <= a0.len(),
                kept@ == a0.take(k as int).filter(not_in_slot(slot)),
            decreases a0.len() - k,
        {
            let a = self.active_touches[k];
            proof {
                assert(a0.take(k + 1) =~= a0.take(k as int).push(a));
                a0.take(k as int).lemma_filter_push(a, not_in_slot(slot));
            }
            if a.slot != slot {
                kept.push(a);
            }
            k += 1;
        }
        assert(a0.take(a0.len() as int) =~= a0);
        self.active_touches = kept;
        Ok(())
    }

    /// Applies the touches of an update in order, appending their reports to `events`.
    fn process_touch_update(&mut self, touches: &Vec<Touch>, events: &mut Vec<DeviceEvent>) -> (r:
        Result<(), TrackpadError>)
        requires
            old(self).wf(),
        ensures
            final(self).wf(),
            match update_all(old(self)@, touches@) {
                Ok((m, e)) => r is Ok && final(self)@ == m && final(events)@ == old(events)@ + e,
                Err(x) => r == Err::<(), TrackpadError>(x),
            },
    {
        let ghost m0 = self@;
        let ghost ev0 = events@;
        let ghost mut acc: Seq<DeviceEvent> = Seq::empty();
        let mut i: usize = 0;
        assert(touches@.skip(0) =~= touches@);
        assert(ev0 + acc =~= ev0);
        while i < touches.len()
            invariant
                self.wf(),
                old(self)@ == m0,
                i <= touches@.len(),
                events@ == ev0 + acc,
                update_all(m0, touches@) == with_prefix(acc, update_all(self@, touches@.skip(i as int))),
            decreases touches@.len() - i,
        {
            let ghost mb = self@;
            let ghost eb = events@;
            let touch = touches[i];
            proof {
                assert(touches@.skip(i as int)[0] == touch);
                assert(touches@.skip(i as int).skip(1) =~= touches@.skip(i + 1));
            }
            match self.process_touch(touch, events) {
                Err(x) => {
                    assert(update_all(mb, touches@.skip(i as int)) == Err::<
                        (TrackpadModel, Seq<DeviceEvent>),
                        TrackpadError,
                    >(x));
                    return Err(x);
                },
                Ok(()) => {},
            }
            proof {
                let e1 = update_one(mb, touch)->Ok_0.1;
                assert forall|e2: Seq<DeviceEvent>| acc + (e1 + e2) == (acc + e1) + e2 by {
                    assert(acc + (e1 + e2) =~= (acc + e1) + e2);
                }
                assert(events@ =~= ev0 + (acc + e1));
                acc = acc + e1;
            }
            i += 1;
        }
        proof {
            assert(touches@.skip(i as int) =~= Seq::<Touch>::empty());
            assert(acc + Seq::<DeviceEvent>::empty() =~= acc);
        }
        Ok(())
    }

    /// Ends the given ids in order, appending the releases to `events`.
    fn process_touch_end(&mut self, ids: &Vec<i32>, events: &mut Vec<DeviceEvent>) -> (r: Result<
        (),
        TrackpadError,
    >)
        requires
            old(self).wf(),
        ensures
            final(self).wf(),
            match end_all(old(self)@, ids@) {
                Ok((m, e)) => r is Ok && final(self)@ == m && final(events)@ == old(events)@ + e,
                Err(x) => r == Err::<(), TrackpadError>(x),
            },
    {
        let ghost m0 = self@;
        let ghost ev0 = events@;
        let ghost mut acc: Seq<DeviceEvent> = Seq::empty();
        let mut i: usize = 0;
        assert(ids@.skip(0) =~= ids@);
        assert(ev0 + acc =~= ev0);
        while i < ids.len()
            invariant
                self.wf(),
                old(self)@ == m0,
                i <= ids@.len(),
                events@ == ev0 + acc,
                end_all(m0, ids@) == with_prefix(acc, end_all(self@, ids@.skip(i as int))),
            decreases ids@.len() - i,
        {
            let ghost mb = self@;
            let id = ids[i];
            proof {
                assert(ids@.skip(i as int)[0] == id);
                assert(ids@.skip(i as int).skip(1) =~= ids@.skip(i + 1));
            }
            match self.end_touch(id, events) {
                Err(x) => {
                    assert(end_all(mb, ids@.skip(i as int)) == Err::<
                        (TrackpadModel, Seq<DeviceEvent>),
                        TrackpadError,
                    >(x));
                    return Err(x);
                },
                Ok(()) => {},
            }
            proof {
                let e1 = end_one(mb, id)->Ok_0.1;
                assert forall|e2: Seq<DeviceEvent>| acc + (e1 + e2) == (acc + e1) + e2 by {
                    assert(acc + (e1 + e2) =~= (acc + e1) + e2);
                }
                assert(events@ =~= ev0 + (acc + e1));
                acc = acc + e1;
            }
            i += 1;
        }
        proof {
            assert(ids@.skip(i as int) =~= Seq::<i32>::empty());
            assert(acc + Seq::<DeviceEvent>::empty() =~= acc);
        }
        Ok(())
    }

    /// Appends the single-pointer report for the current touches to `events`:
    /// the oldest touch's position, if any, and the touch and finger-count keys.
    fn report_legacy_and_tool(&self, events: &mut Vec<DeviceEvent>)
        ensures
            final(events)@ == old(events)@ + legacy_report(oldest(self@.active), self@.active.len()),
    {
        let count = self.active_touches.len();
        let position = if count != 0 {
            Some((self.active_touches[0].x, self.active_touches[0].y))
        } else {
            None
        };
        report_legacy_and_tool(events, position, count);
    }

    /// Takes the new geometry and forgets every touch: all slots free, no touch active.
    fn update_dimensions(&mut self, width: i32, height: i32, resolution: i32)
        ensures
            final(self).wf(),
            final(self)@ == empty_model(DimensionsData { width, height, resolution }),
    {
        self.dimensions = DimensionsData { width, height, resolution };
        self.slots = free_slots();
        self.active_touches = Vec::new();
        assert(self@.slots =~= empty_model(self@.dims).slots);
        assert(self@.active =~= empty_model(self@.dims).active);
    }

    /// Processes one message. A dimensions update forgets every touch and asks
    /// for the device to be registered anew; a touch update assigns or keeps a
    /// slot for each touch in order and reports it; a touch end releases the
    /// slot of each id in order. Every frame then closes with the single-pointer
    /// report and a sync. A refused message changes nothing.
    pub fn process_message(&mut self, msg: Message) -> (r: Result<Frame, TrackpadError>)
        requires
            old(self).wf(),
        ensures
            final(self).wf(),
            match step(old(self)@, msg) {
                Ok((m, reset, e)) => r is Ok && final(self)@ == m && r->Ok_0.reset == reset
                    && r->Ok_0.events@ == e,
                Err(x) => r is Err && r->Err_0 == x && final(self)@ == old(self)@,
            },
    {
        let mut events: Vec<DeviceEvent> = Vec::new();
        let reset = match msg {
            Message::DimensionsUpdate(dims) => {
                self.update_dimensions(dims.width, dims.height, dims.resolution);
                Some(dims)
            },
            Message::TouchUpdate(touches) => {
                let mut next = self.snapshot();
                match next.process_touch_update(&touches, &mut events) {
                    Err(x) => {
                        return Err(x);
                    },
                    Ok(()) => {},
                }
                *self = next;
                None
            },
            Message::TouchEnd(ids) => {
                let mut next = self.snapshot();
                match next.process_touch_end(&ids, &mut events) {
                    Err(x) => {
                        return Err(x);
                    },
                    Ok(()) => {},
                }
                *self = next;
                None
            },
        };
        let ghost body = events@;
        self.report_legacy_and_tool(&mut events);
        report_sync(&mut events);
        proof {
            let m = self@;
            assert(events@ =~= body + closing_report(m));
            assert(Seq::<DeviceEvent>::empty() + body =~= body);
        }
        Ok(Frame { reset, events })
    }
}

} // verus!
