//! Properties of the trackpad that hold over every input and sequence of messages.
use vstd::prelude::*;

use crate::event::{finger_count_report, NUM_SLOTS};
use crate::message::{DimensionsData, Message, Touch};
use crate::trackpad::{
    empty_model, end_all, end_one, first_slot_with, lemma_end_one_wf, lemma_first_slot_with,
    lemma_update_one_wf, model_wf, slot_for_id, slots_unique, step, update_all, update_one,
    without_slot, ActiveTouch, TrackpadError, TrackpadModel,
};

verus! {

/// A trackpad with no touch satisfies the state invariant.
pub proof fn lemma_empty_wf(dims: DimensionsData)
    ensures
        model_wf(empty_model(dims)),
{
}

/// The touches of an update, applied in order, keep the state invariant.
pub proof fn lemma_update_all_wf(m: TrackpadModel, ts: Seq<Touch>)
    requires
        model_wf(m),
        update_all(m, ts) is Ok,
    ensures
        model_wf(update_all(m, ts)->Ok_0.0),
    decreases ts.len(),
{
    if ts.len() > 0 {
        lemma_update_one_wf(m, ts[0]);
        lemma_update_all_wf(update_one(m, ts[0])->Ok_0.0, ts.skip(1));
    }
}

/// The ids of an end message, ended in order, keep the state invariant.
pub proof fn lemma_end_all_wf(m: TrackpadModel, ids: Seq<i32>)
    requires
        model_wf(m),
        end_all(m, ids) is Ok,
    ensures
        model_wf(end_all(m, ids)->Ok_0.0),
    decreases ids.len(),
{
    if ids.len() > 0 {
        lemma_end_one_wf(m, ids[0]);
        lemma_end_all_wf(end_one(m, ids[0])->Ok_0.0, ids.skip(1));
    }
}

/// Slot uniqueness: whatever message is processed, no two occupied slots
/// hold the same touch id afterwards (and the whole state invariant holds).
pub proof fn lemma_step_keeps_slots_unique(m: TrackpadModel, msg: Message)
    requires
        model_wf(m),
        step(m, msg) is Ok,
    ensures
        model_wf(step(m, msg)->Ok_0.0),
        slots_unique(step(m, msg)->Ok_0.0.slots),
{
    match msg {
        Message::DimensionsUpdate(d) => {},
        Message::TouchUpdate(ts) => lemma_update_all_wf(m, ts@),
        Message::TouchEnd(ids) => lemma_end_all_wf(m, ids@),
    }
}

/// Slot capacity: when every slot is taken and a touch of an update holds
/// none of them, the whole update is refused with `SlotsExhausted`, provided
/// the touches before it only move touches that already hold slots.
pub proof fn lemma_full_slots_refuse_new_touch(m: TrackpadModel, ts: Seq<Touch>, t: Touch)
    requires
        model_wf(m),
        forall|s: int| 0 <= s < NUM_SLOTS ==> (#[trigger] m.slots[s]) is Some,
        forall|s: int| 0 <= s < NUM_SLOTS ==> m.slots[s] != Some(t.id),
        ts.len() > 0,
        ts[0] == t,
    ensures
        update_all(m, ts) == Err::<(TrackpadModel, Seq<crate::event::DeviceEvent>), TrackpadError>(
            TrackpadError::SlotsExhausted(t.id),
        ),
{
    lemma_first_slot_with(m.slots, Some(t.id));
    lemma_first_slot_with(m.slots, None);
}

/// A touch id that holds no slot is given the lowest free slot, if any.
pub proof fn lemma_new_touch_takes_lowest_free_slot(slots: Seq<Option<i32>>, id: i32)
    requires
        forall|s: int| 0 <= s < slots.len() ==> slots[s] != Some(id),
        exists|s: int| 0 <= s < slots.len() && slots[s] is None,
    ensures
        slot_for_id(slots, id) is Some,
        slot_for_id(slots, id)->Some_0.1,
        slots[slot_for_id(slots, id)->Some_0.0] is None,
        forall|j: int| 0 <= j < slot_for_id(slots, id)->Some_0.0 ==> slots[j] is Some,
{
    lemma_first_slot_with(slots, Some(id));
    lemma_first_slot_with(slots, None);
}

/// Reuse determinism: after a touch ends, a new touch takes the lowest free
/// slot, which is never above the slot that was just released.
pub proof fn lemma_reuse_after_end(m: TrackpadModel, id: i32, t: Touch)
    requires
        model_wf(m),
        end_one(m, id) is Ok,
        forall|s: int| 0 <= s < NUM_SLOTS ==> end_one(m, id)->Ok_0.0.slots[s] != Some(t.id),
    ensures
        ({
            let m1 = end_one(m, id)->Ok_0.0;
            let released = slot_for_id(m.slots, id)->Some_0.0;
            let (s, new) = slot_for_id(m1.slots, t.id)->Some_0;
            &&& slot_for_id(m1.slots, t.id) is Some
            &&& new
            &&& s <= released
            &&& m1.slots[s] is None
            &&& forall|j: int| 0 <= j < s ==> m1.slots[j] is Some
        }),
{
    let m1 = end_one(m, id)->Ok_0.0;
    lemma_first_slot_with(m.slots, Some(id));
    lemma_first_slot_with(m.slots, None);
    let released = slot_for_id(m.slots, id)->Some_0.0;
    assert(m1.slots[released] is None);
    lemma_new_touch_takes_lowest_free_slot(m1.slots, t.id);
}

/// Order of the active touches under one touch of an update: touches already
/// active keep their places, the entry of the touch's slot takes its new
/// position, and a new touch goes last.
pub proof fn lemma_update_one_keeps_order(m: TrackpadModel, t: Touch)
    requires
        model_wf(m),
        update_one(m, t) is Ok,
    ensures
        ({
            let m1 = update_one(m, t)->Ok_0.0;
            let s = slot_for_id(m.slots, t.id)->Some_0.0;
            &&& m1.active.len() >= m.active.len()
            &&& forall|k: int|
                0 <= k < m.active.len() ==> #[trigger] m1.active[k] == if m.active[k].slot == s {
                    ActiveTouch { slot: s as usize, x: t.x, y: t.y }
                } else {
                    m.active[k]
                }
            &&& m1.active.len() > m.active.len() ==> m1.active.last() == ActiveTouch {
                slot: s as usize,
                x: t.x,
                y: t.y,
            }
        }),
{
    lemma_first_slot_with(m.slots, Some(t.id));
    lemma_first_slot_with(m.slots, None);
    let (s, new) = slot_for_id(m.slots, t.id)->Some_0;
    let m1 = update_one(m, t)->Ok_0.0;
    if new {
        assert forall|k: int| 0 <= k < m.active.len() implies (#[trigger] m.active[k]).slot != s by {}
        assert forall|k: int| 0 <= k < m.active.len() implies #[trigger] m1.active[k] == m.active[k] by {}
    }
}

/// Legacy position: the touches of an update never change which touch is
/// oldest, nor the order of those already active, so the single-pointer
/// position keeps following the oldest touch.
pub proof fn lemma_update_all_keeps_order(m: TrackpadModel, ts: Seq<Touch>)
    requires
        model_wf(m),
        update_all(m, ts) is Ok,
    ensures
        update_all(m, ts)->Ok_0.0.active.len() >= m.active.len(),
        forall|k: int|
            0 <= k < m.active.len() ==> (#[trigger] update_all(m, ts)->Ok_0.0.active[k]).slot
                == m.active[k].slot,
    decreases ts.len(),
{
    if ts.len() > 0 {
        let m1 = update_one(m, ts[0])->Ok_0.0;
        lemma_update_one_wf(m, ts[0]);
        lemma_update_one_keeps_order(m, ts[0]);
        lemma_update_all_keeps_order(m1, ts.skip(1));
        assert forall|k: int| 0 <= k < m.active.len() implies (#[trigger] update_all(
            m,
            ts,
        )->Ok_0.0.active[k]).slot == m.active[k].slot by {
            assert(m1.active[k].slot == m.active[k].slot);
        }
    }
}

/// Legacy position: when the oldest touch ends, the next oldest, with its
/// latest position, becomes the oldest.
pub proof fn lemma_end_oldest_promotes_next(m: TrackpadModel, id: i32)
    requires
        model_wf(m),
        m.active.len() >= 2,
        m.slots[m.active[0].slot as int] == Some(id),
    ensures
        end_one(m, id) is Ok,
        end_one(m, id)->Ok_0.0.active.len() == m.active.len() - 1,
        end_one(m, id)->Ok_0.0.active[0] == m.active[1],
{
    let s = m.active[0].slot;
    lemma_first_slot_with(m.slots, Some(id));
    assert(first_slot_with(m.slots, Some(id)) == s as int);
    reveal_with_fuel(Seq::filter, 2);
    lemma_filter_drops_first(m.active, s);
}

proof fn lemma_filter_drops_first(a: Seq<ActiveTouch>, s: usize)
    requires
        a.len() >= 1,
        a[0].slot == s,
        forall|k: int| 1 <= k < a.len() ==> (#[trigger] a[k]).slot != s,
    ensures
        without_slot(a, s) == a.skip(1),
    decreases a.len(),
{
    reveal(Seq::filter);
    if a.len() == 1 {
        assert(a.drop_last() =~= Seq::<ActiveTouch>::empty());
        assert(a.skip(1) =~= Seq::<ActiveTouch>::empty());
        assert(Seq::<ActiveTouch>::empty().filter(crate::trackpad::not_in_slot(s)) =~= Seq::<
            ActiveTouch,
        >::empty());
    } else {
        let init = a.drop_last();
        lemma_filter_drops_first(init, s);
        assert(a.skip(1) =~= init.skip(1).push(a.last()));
    }
}

/// Finger-count exclusivity: for 1 to 5 touches exactly the matching
/// finger-count key is pressed; for none or more than 5, no key is.
pub proof fn lemma_finger_count_exclusive(count: nat)
    ensures
        finger_count_report(count).len() == 6,
        finger_count_report(count)[0].value == (if count != 0 { 1i32 } else { 0i32 }),
        forall|i: int|
            1 <= i < 6 ==> (#[trigger] finger_count_report(count)[i]).value == (if count == i {
                1i32
            } else {
                0i32
            }),
{
}

/// Dimension reset: a dimensions update frees every slot and forgets every
/// touch and takes the new geometry, so any touch id afterwards is new and
/// takes slot 0.
pub proof fn lemma_dimensions_reset(m: TrackpadModel, d: DimensionsData, t: Touch)
    ensures
        step(m, Message::DimensionsUpdate(d)) is Ok,
        step(m, Message::DimensionsUpdate(d))->Ok_0.0 == empty_model(d),
        step(m, Message::DimensionsUpdate(d))->Ok_0.1 == Some(d),
        slot_for_id(empty_model(d).slots, t.id) == Some((0int, true)),
{
    let slots = empty_model(d).slots;
    lemma_first_slot_with(slots, Some(t.id));
    lemma_first_slot_with(slots, None);
    crate::trackpad::lemma_first_slot_at(slots, None, 0);
}

} // verus!
