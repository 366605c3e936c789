use dargo_server::event::{device_descriptor, AxisInfo, DeviceEvent, EventCode};
use dargo_server::message::{DimensionsData, Message, Touch};
use dargo_server::trackpad::{TrackpadError, UinputTrackpad};

fn ev(code: EventCode, value: i32) -> DeviceEvent {
    DeviceEvent { code, value }
}

fn touch(id: i32, x: i32, y: i32) -> Touch {
    Touch { id, x, y }
}

fn update(tp: &mut UinputTrackpad, touches: Vec<Touch>) -> Vec<DeviceEvent> {
    tp.process_message(Message::TouchUpdate(touches)).unwrap().events
}

fn end(tp: &mut UinputTrackpad, ids: Vec<i32>) -> Vec<DeviceEvent> {
    tp.process_message(Message::TouchEnd(ids)).unwrap().events
}

fn legacy_position(events: &[DeviceEvent]) -> Option<(i32, i32)> {
    let x = events.iter().find(|e| e.code == EventCode::AbsX)?.value;
    let y = events.iter().find(|e| e.code == EventCode::AbsY)?.value;
    Some((x, y))
}

fn key(events: &[DeviceEvent], code: EventCode) -> i32 {
    events.iter().find(|e| e.code == code).unwrap().value
}

fn slot_of(tp: &UinputTrackpad, id: i32) -> (usize, bool) {
    tp.find_slot_for_id(id).unwrap()
}

#[test]
fn end_to_end_first_touch() {
    let mut tp = UinputTrackpad::new(1, 1, 1);
    let dims = DimensionsData { width: 1000, height: 600, resolution: 10 };
    let frame = tp.process_message(Message::DimensionsUpdate(dims)).unwrap();
    assert_eq!(frame.reset, Some(dims));
    let frame = tp.process_message(Message::TouchUpdate(vec![touch(1, 5, 5)])).unwrap();
    assert_eq!(frame.reset, None);
    assert_eq!(
        frame.events,
        vec![
            ev(EventCode::AbsMtSlot, 0),
            ev(EventCode::AbsMtToolType, 0),
            ev(EventCode::AbsMtTrackingId, 1),
            ev(EventCode::AbsMtPositionX, 5),
            ev(EventCode::AbsMtPositionY, 5),
            ev(EventCode::AbsX, 5),
            ev(EventCode::AbsY, 5),
            ev(EventCode::BtnTouch, 1),
            ev(EventCode::BtnToolFinger, 1),
            ev(EventCode::BtnToolDoubletap, 0),
            ev(EventCode::BtnToolTripletap, 0),
            ev(EventCode::BtnToolQuadtap, 0),
            ev(EventCode::BtnToolQuinttap, 0),
            ev(EventCode::SynReport, 0),
        ]
    );
}

#[test]
fn dimensions_update_frame_has_no_touch() {
    let mut tp = UinputTrackpad::new(100, 100, 1);
    let dims = DimensionsData { width: 640, height: 480, resolution: 3 };
    let frame = tp.process_message(Message::DimensionsUpdate(dims)).unwrap();
    assert_eq!(frame.reset, Some(dims));
    assert_eq!(
        frame.events,
        vec![
            ev(EventCode::BtnTouch, 0),
            ev(EventCode::BtnToolFinger, 0),
            ev(EventCode::BtnToolDoubletap, 0),
            ev(EventCode::BtnToolTripletap, 0),
            ev(EventCode::BtnToolQuadtap, 0),
            ev(EventCode::BtnToolQuinttap, 0),
            ev(EventCode::SynReport, 0),
        ]
    );
}

#[test]
fn touch_end_releases_slot() {
    let mut tp = UinputTrackpad::new(100, 100, 1);
    update(&mut tp, vec![touch(7, 1, 2)]);
    let events = end(&mut tp, vec![7]);
    assert_eq!(
        events,
        vec![
            ev(EventCode::AbsMtSlot, 0),
            ev(EventCode::AbsMtTrackingId, -1),
            ev(EventCode::BtnTouch, 0),
            ev(EventCode::BtnToolFinger, 0),
            ev(EventCode::BtnToolDoubletap, 0),
            ev(EventCode::BtnToolTripletap, 0),
            ev(EventCode::BtnToolQuadtap, 0),
            ev(EventCode::BtnToolQuinttap, 0),
            ev(EventCode::SynReport, 0),
        ]
    );
    assert_eq!(slot_of(&tp, 7), (0, true));
}

#[test]
fn same_id_keeps_its_slot() {
    let mut tp = UinputTrackpad::new(100, 100, 1);
    update(&mut tp, vec![touch(3, 1, 1), touch(4, 2, 2)]);
    let events = update(&mut tp, vec![touch(4, 9, 8)]);
    assert_eq!(events[0], ev(EventCode::AbsMtSlot, 1));
    assert_eq!(events[2], ev(EventCode::AbsMtTrackingId, 4));
    assert_eq!(key(&events, EventCode::BtnToolDoubletap), 1);
    assert_eq!(slot_of(&tp, 3), (0, false));
    assert_eq!(slot_of(&tp, 4), (1, false));
}

#[test]
fn slot_ids_stay_unique() {
    let mut tp = UinputTrackpad::new(100, 100, 1);
    update(&mut tp, vec![touch(1, 0, 0), touch(2, 0, 0), touch(1, 3, 3)]);
    end(&mut tp, vec![1]);
    update(&mut tp, vec![touch(2, 1, 1), touch(1, 4, 4)]);
    assert_eq!(slot_of(&tp, 2), (1, false));
    assert_eq!(slot_of(&tp, 1), (0, false));
    assert_eq!(slot_of(&tp, 99), (2, true));
}

#[test]
fn eleventh_touch_is_refused() {
    let mut tp = UinputTrackpad::new(100, 100, 1);
    let touches: Vec<Touch> = (0..10).map(|i| touch(100 + i, i, i)).collect();
    update(&mut tp, touches);
    let r = tp.process_message(Message::TouchUpdate(vec![touch(500, 1, 1)]));
    assert_eq!(r.unwrap_err(), TrackpadError::SlotsExhausted(500));
    for i in 0..10 {
        assert_eq!(slot_of(&tp, 100 + i), (i as usize, false));
    }
    assert_eq!(tp.find_slot_for_id(500), Err(TrackpadError::SlotsExhausted(500)));
}

#[test]
fn refused_update_changes_nothing() {
    let mut tp = UinputTrackpad::new(100, 100, 1);
    let touches: Vec<Touch> = (0..9).map(|i| touch(i, i, i)).collect();
    update(&mut tp, touches);
    let r = tp.process_message(Message::TouchUpdate(vec![touch(0, 50, 50), touch(20, 1, 1), touch(21, 1, 1)]));
    assert_eq!(r.unwrap_err(), TrackpadError::SlotsExhausted(21));
    assert_eq!(slot_of(&tp, 20), (9, true));
    let events = update(&mut tp, vec![]);
    assert_eq!(legacy_position(&events), Some((0, 0)));
}

#[test]
fn ending_unknown_id_is_refused() {
    let mut tp = UinputTrackpad::new(100, 100, 1);
    update(&mut tp, vec![touch(1, 1, 1)]);
    let r = tp.process_message(Message::TouchEnd(vec![1, 42]));
    assert_eq!(r.unwrap_err(), TrackpadError::UnknownTouch(42));
    assert_eq!(slot_of(&tp, 1), (0, false));
}

#[test]
fn ending_unknown_id_with_all_slots_taken() {
    let mut tp = UinputTrackpad::new(100, 100, 1);
    let touches: Vec<Touch> = (0..10).map(|i| touch(i, i, i)).collect();
    update(&mut tp, touches);
    let r = tp.process_message(Message::TouchEnd(vec![77]));
    assert_eq!(r.unwrap_err(), TrackpadError::SlotsExhausted(77));
}

#[test]
fn ended_slot_is_reused() {
    let mut tp = UinputTrackpad::new(100, 100, 1);
    let touches: Vec<Touch> = (1..=6).map(|i| touch(i, i, i)).collect();
    update(&mut tp, touches);
    end(&mut tp, vec![5]);
    let events = update(&mut tp, vec![touch(8, 0, 0)]);
    assert_eq!(events[0], ev(EventCode::AbsMtSlot, 4));
    assert_eq!(slot_of(&tp, 8), (4, false));
}

#[test]
fn reuse_takes_lowest_freed_slot() {
    let mut tp = UinputTrackpad::new(100, 100, 1);
    let touches: Vec<Touch> = (1..=6).map(|i| touch(i, i, i)).collect();
    update(&mut tp, touches);
    end(&mut tp, vec![2]);
    end(&mut tp, vec![5]);
    let events = update(&mut tp, vec![touch(9, 0, 0)]);
    assert_eq!(events[0], ev(EventCode::AbsMtSlot, 1));
    assert_eq!(slot_of(&tp, 9), (1, false));
    assert_eq!(slot_of(&tp, 10), (4, true));
}

#[test]
fn legacy_position_follows_oldest_touch() {
    let mut tp = UinputTrackpad::new(100, 100, 1);
    let events = update(&mut tp, vec![touch(1, 10, 10), touch(2, 20, 20), touch(3, 30, 30)]);
    assert_eq!(legacy_position(&events), Some((10, 10)));
    let events = update(&mut tp, vec![touch(2, 21, 22), touch(3, 31, 32)]);
    assert_eq!(legacy_position(&events), Some((10, 10)));
    let events = update(&mut tp, vec![touch(1, 11, 12)]);
    assert_eq!(legacy_position(&events), Some((11, 12)));
    let events = end(&mut tp, vec![1]);
    assert_eq!(legacy_position(&events), Some((21, 22)));
    let events = end(&mut tp, vec![2, 3]);
    assert_eq!(legacy_position(&events), None);
}

#[test]
fn legacy_order_is_insertion_not_slot() {
    let mut tp = UinputTrackpad::new(100, 100, 1);
    update(&mut tp, vec![touch(1, 10, 10), touch(2, 20, 20)]);
    end(&mut tp, vec![1]);
    let events = update(&mut tp, vec![touch(3, 30, 30)]);
    assert_eq!(events[0], ev(EventCode::AbsMtSlot, 0));
    assert_eq!(legacy_position(&events), Some((20, 20)));
}

#[test]
fn finger_count_keys_are_exclusive() {
    let codes = [
        EventCode::BtnToolFinger,
        EventCode::BtnToolDoubletap,
        EventCode::BtnToolTripletap,
        EventCode::BtnToolQuadtap,
        EventCode::BtnToolQuinttap,
    ];
    let mut tp = UinputTrackpad::new(100, 100, 1);
    let events = update(&mut tp, vec![]);
    assert_eq!(key(&events, EventCode::BtnTouch), 0);
    for c in codes {
        assert_eq!(key(&events, c), 0);
    }
    for count in 1..=6 {
        let events = update(&mut tp, vec![touch(count, 1, 1)]);
        assert_eq!(key(&events, EventCode::BtnTouch), 1);
        for (i, c) in codes.iter().enumerate() {
            let expected = if count as usize == i + 1 { 1 } else { 0 };
            assert_eq!(key(&events, *c), expected);
        }
    }
}

#[test]
fn dimensions_update_resets_touches() {
    let mut tp = UinputTrackpad::new(100, 100, 1);
    update(&mut tp, vec![touch(1, 1, 1), touch(2, 2, 2), touch(3, 3, 3)]);
    let dims = DimensionsData { width: 50, height: 40, resolution: 2 };
    let frame = tp.process_message(Message::DimensionsUpdate(dims)).unwrap();
    assert_eq!(frame.reset, Some(dims));
    assert_eq!(legacy_position(&frame.events), None);
    assert_eq!(key(&frame.events, EventCode::BtnTouch), 0);
    assert_eq!(slot_of(&tp, 3), (0, true));
    let events = update(&mut tp, vec![touch(3, 5, 6)]);
    assert_eq!(events[0], ev(EventCode::AbsMtSlot, 0));
    assert_eq!(key(&events, EventCode::BtnToolFinger), 1);
    assert_eq!(slot_of(&tp, 1), (1, true));
}

#[test]
fn descriptor_covers_surface() {
    let d = device_descriptor(DimensionsData { width: 1000, height: 600, resolution: 10 });
    assert!(d.pointer);
    assert_eq!(
        d.keys,
        vec![
            EventCode::BtnTouch,
            EventCode::BtnToolFinger,
            EventCode::BtnToolDoubletap,
            EventCode::BtnToolTripletap,
            EventCode::BtnToolQuadtap,
            EventCode::BtnToolQuinttap,
        ]
    );
    let axis = |code, maximum, fuzz, resolution| AxisInfo { code, minimum: 0, maximum, fuzz, resolution };
    assert_eq!(
        d.axes,
        vec![
            axis(EventCode::AbsMtSlot, 9, 0, 0),
            axis(EventCode::AbsMtTrackingId, 15, 0, 0),
            axis(EventCode::AbsMtToolType, 15, 0, 0),
            axis(EventCode::AbsX, 999, 1, 10),
            axis(EventCode::AbsMtPositionX, 999, 1, 10),
            axis(EventCode::AbsY, 599, 1, 10),
            axis(EventCode::AbsMtPositionY, 599, 1, 10),
        ]
    );
}

#[test]
fn descriptor_of_degenerate_surface() {
    let d = device_descriptor(DimensionsData { width: 0, height: i32::MIN, resolution: 1 });
    assert_eq!(d.axes[3].maximum, 0);
    assert_eq!(d.axes[5].maximum, 0);
}

#[test]
fn dimensions_follow_latest_announcement() {
    let mut tp = UinputTrackpad::new(1000, 600, 10);
    assert_eq!(tp.dimensions(), DimensionsData { width: 1000, height: 600, resolution: 10 });
    let dims = DimensionsData { width: 320, height: 200, resolution: 4 };
    tp.process_message(Message::DimensionsUpdate(dims)).unwrap();
    assert_eq!(tp.dimensions(), dims);
    update(&mut tp, vec![touch(1, 2, 3)]);
    assert_eq!(tp.dimensions(), dims);
}
