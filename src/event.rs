//! Device events, the reports they are grouped in, and the device's capabilities.
use vstd::prelude::*;

use crate::message::{DimensionsData, Touch};

verus! {

/// Number of hardware slots of the virtual device: at most this many touches at a time.
pub const NUM_SLOTS: usize = 10;

/// Tool type reported for every contact (`MT_TOOL_FINGER` of the kernel's input protocol).
pub const MT_TOOL_FINGER: i32 = 0;

/// Largest tool type the device declares (`MT_TOOL_MAX`).
pub const MT_TOOL_MAX: i32 = 15;

/// Largest tracking id the device declares.
pub const TRACKING_ID_MAX: i32 = 15;

/// Tracking id that marks a slot as released.
pub const TRACKING_ID_RELEASED: i32 = -1;

/// The event codes the virtual trackpad uses.
#[derive(Clone, Copy, Debug, PartialEq, Eq, Structural)]
pub enum EventCode {
    AbsX,
    AbsY,
    AbsMtSlot,
    AbsMtToolType,
    AbsMtTrackingId,
    AbsMtPositionX,
    AbsMtPositionY,
    BtnTouch,
    BtnToolFinger,
    BtnToolDoubletap,
    BtnToolTripletap,
    BtnToolQuadtap,
    BtnToolQuinttap,
    SynReport,
}

/// One event for the device: a code and its value.
#[derive(Clone, Copy, Debug, PartialEq, Eq, Structural)]
pub struct DeviceEvent {
    pub code: EventCode,
    pub value: i32,
}

/// Range and precision of one absolute axis of the device.
#[derive(Clone, Copy, Debug, PartialEq, Eq, Structural)]
pub struct AxisInfo {
    pub code: EventCode,
    pub minimum: i32,
    pub maximum: i32,
    pub fuzz: i32,
    pub resolution: i32,
}

/// The capabilities a virtual trackpad of a given geometry declares when it is registered.
#[derive(Debug)]
pub struct DeviceDescriptor {
    /// Keys to enable, in order.
    pub keys: Vec<EventCode>,
    /// Whether the device carries the "pointer device" property.
    pub pointer: bool,
    /// Absolute axes to enable, in order.
    pub axes: Vec<AxisInfo>,
}

pub open spec fn ev(code: EventCode, value: i32) -> DeviceEvent {
    DeviceEvent { code, value }
}

/// 1 for true, 0 for false.
pub open spec fn flag(b: bool) -> i32 {
    if b { 1 } else { 0 }
}

/// Events that report the state of one slot: the slot is selected first, then
/// either the touch it now holds or its release.
pub open spec fn slot_report(slot: usize, touch: Option<Touch>) -> Seq<DeviceEvent> {
    let select = ev(EventCode::AbsMtSlot, slot as i32);
    match touch {
        Some(t) => seq![
            select,
            ev(EventCode::AbsMtToolType, MT_TOOL_FINGER),
            ev(EventCode::AbsMtTrackingId, t.id),
            ev(EventCode::AbsMtPositionX, t.x),
            ev(EventCode::AbsMtPositionY, t.y),
        ],
        None => seq![select, ev(EventCode::AbsMtTrackingId, TRACKING_ID_RELEASED)],
    }
}

/// Finger-count keys: exactly one is pressed for 1 to 5 touches, none otherwise.
pub open spec fn finger_count_report(count: nat) -> Seq<DeviceEvent> {
    seq![
        ev(EventCode::BtnTouch, flag(count != 0)),
        ev(EventCode::BtnToolFinger, flag(count == 1)),
        ev(EventCode::BtnToolDoubletap, flag(count == 2)),
        ev(EventCode::BtnToolTripletap, flag(count == 3)),
        ev(EventCode::BtnToolQuadtap, flag(count == 4)),
        ev(EventCode::BtnToolQuinttap, flag(count == 5)),
    ]
}

/// Single-pointer report: the position of the oldest touch, if any, then the
/// touch and finger-count keys.
pub open spec fn legacy_report(oldest: Option<(i32, i32)>, count: nat) -> Seq<DeviceEvent> {
    let position = match oldest {
        Some((x, y)) => seq![ev(EventCode::AbsX, x), ev(EventCode::AbsY, y)],
        None => Seq::empty(),
    };
    position + finger_count_report(count)
}

pub open spec fn sync_report() -> Seq<DeviceEvent> {
    seq![ev(EventCode::SynReport, 0)]
}

/// Largest coordinate on an axis of the given extent; a degenerate extent gives 0.
pub open spec fn axis_max(extent: i32) -> i32 {
    if extent > 0 { (extent - 1) as i32 } else { 0 }
}

pub open spec fn trackpad_keys() -> Seq<EventCode> {
    seq![
        EventCode::BtnTouch,
        EventCode::BtnToolFinger,
        EventCode::BtnToolDoubletap,
        EventCode::BtnToolTripletap,
        EventCode::BtnToolQuadtap,
        EventCode::BtnToolQuinttap,
    ]
}

pub open spec fn axis(code: EventCode, maximum: i32, fuzz: i32, resolution: i32) -> AxisInfo {
    AxisInfo { code, minimum: 0, maximum, fuzz, resolution }
}

pub open spec fn trackpad_axes(dims: DimensionsData) -> Seq<AxisInfo> {
    let x_max = axis_max(dims.width);
    let y_max = axis_max(dims.height);
    seq![
        axis(EventCode::AbsMtSlot, (NUM_SLOTS - 1) as i32, 0, 0),
        axis(EventCode::AbsMtTrackingId, TRACKING_ID_MAX, 0, 0),
        axis(EventCode::AbsMtToolType, MT_TOOL_MAX, 0, 0),
        axis(EventCode::AbsX, x_max, 1, dims.resolution),
        axis(EventCode::AbsMtPositionX, x_max, 1, dims.resolution),
        axis(EventCode::AbsY, y_max, 1, dims.resolution),
        axis(EventCode::AbsMtPositionY, y_max, 1, dims.resolution),
    ]
}

fn axis_extent_max(extent: i32) -> (r: i32)
    ensures
        r == axis_max(extent),
{
    if extent > 0 {
        extent - 1
    } else {
        0
    }
}

fn make_axis(code: EventCode, maximum: i32, fuzz: i32, resolution: i32) -> (r: AxisInfo)
    ensures
        r == axis(code, maximum, fuzz, resolution),
{
    AxisInfo { code, minimum: 0, maximum, fuzz, resolution }
}

/// The capability set of a virtual trackpad whose surface has the given geometry:
/// touch and finger-count keys, the pointer property, and the slot, tracking-id,
/// tool-type and position axes, the positions ranging over the surface.
pub fn device_descriptor(dims: DimensionsData) -> (r: DeviceDescriptor)
    ensures
        r.keys@ == trackpad_keys(),
        r.pointer,
        r.axes@ == trackpad_axes(dims),
{
    let keys = vec![
        EventCode::BtnTouch,
        EventCode::BtnToolFinger,
        EventCode::BtnToolDoubletap,
        EventCode::BtnToolTripletap,
        EventCode::BtnToolQuadtap,
        EventCode::BtnToolQuinttap,
    ];
    let x_max = axis_extent_max(dims.width);
    let y_max = axis_extent_max(dims.height);
    let res = dims.resolution;
    let axes = vec![
        make_axis(EventCode::AbsMtSlot, (NUM_SLOTS - 1) as i32, 0, 0),
        make_axis(EventCode::AbsMtTrackingId, TRACKING_ID_MAX, 0, 0),
        make_axis(EventCode::AbsMtToolType, MT_TOOL_MAX, 0, 0),
        make_axis(EventCode::AbsX, x_max, 1, res),
        make_axis(EventCode::AbsMtPositionX, x_max, 1, res),
        make_axis(EventCode::AbsY, y_max, 1, res),
        make_axis(EventCode::AbsMtPositionY, y_max, 1, res),
    ];
    proof {
        assert(keys@ =~= trackpad_keys());
        assert(axes@ =~= trackpad_axes(dims));
    }
    DeviceDescriptor { keys, pointer: true, axes }
}

fn push_event(events: &mut Vec<DeviceEvent>, code: EventCode, value: i32)
    ensures
        final(events)@ == old(events)@.push(ev(code, value)),
{
    events.push(DeviceEvent { code, value });
}

fn flag_value(b: bool) -> (r: i32)
    ensures
        r == flag(b),
{
    if b {
        1
    } else {
        0
    }
}

/// Appends the report of one slot to `events`.
pub fn report_mt_slot(events: &mut Vec<DeviceEvent>, slot: usize, touch: Option<Touch>)
    requires
        slot < NUM_SLOTS,
    ensures
        final(events)@ == old(events)@ + slot_report(slot, touch),
{
    push_event(events, EventCode::AbsMtSlot, slot as i32);
    match touch {
        Some(t) => {
            push_event(events, EventCode::AbsMtToolType, MT_TOOL_FINGER);
            push_event(events, EventCode::AbsMtTrackingId, t.id);
            push_event(events, EventCode::AbsMtPositionX, t.x);
            push_event(events, EventCode::AbsMtPositionY, t.y);
        },
        None => {
            push_event(events, EventCode::AbsMtTrackingId, TRACKING_ID_RELEASED);
        },
    }
    assert(events@ =~= old(events)@ + slot_report(slot, touch));
}

/// Appends the single-pointer and finger-count report to `events`.
pub fn report_legacy_and_tool(events: &mut Vec<DeviceEvent>, oldest: Option<(i32, i32)>, count: usize)
    ensures
        final(events)@ == old(events)@ + legacy_report(oldest, count as nat),
{
    match oldest {
        Some((x, y)) => {
            push_event(events, EventCode::AbsX, x);
            push_event(events, EventCode::AbsY, y);
        },
        None => {},
    }
    push_event(events, EventCode::BtnTouch, flag_value(count != 0));
    push_event(events, EventCode::BtnToolFinger, flag_value(count == 1));
    push_event(events, EventCode::BtnToolDoubletap, flag_value(count == 2));
    push_event(events, EventCode::BtnToolTripletap, flag_value(count == 3));
    push_event(events, EventCode::BtnToolQuadtap, flag_value(count == 4));
    push_event(events, EventCode::BtnToolQuinttap, flag_value(count == 5));
    assert(events@ =~= old(events)@ + legacy_report(oldest, count as nat));
}

/// Appends the synchronization event that closes a frame.
pub fn report_sync(events: &mut Vec<DeviceEvent>)
    ensures
        final(events)@ == old(events)@ + sync_report(),
{
    push_event(events, EventCode::SynReport, 0);
    assert(events@ =~= old(events)@ + sync_report());
}

} // verus!
