//! A synthesized swipe to an adjacent space, fast enough to skip the animation.

use vstd::prelude::*;

verus! {

/// The fields of an event, by number.
pub const FIELD_EVENT_TYPE: u32 = 55;

pub const FIELD_GESTURE_HID_TYPE: u32 = 110;

pub const FIELD_GESTURE_MOTION: u32 = 123;

pub const FIELD_PROGRESS: u32 = 124;

pub const FIELD_VELOCITY_X: u32 = 129;

pub const FIELD_GESTURE_PHASE: u32 = 132;

pub const EVENT_DOCK_CONTROL: i64 = 30;

pub const EVENT_TYPE_DOCK_SWIPE: i64 = 23;

pub const MOTION_HORIZONTAL: i64 = 1;

pub const PHASE_BEGAN: i64 = 1;

/// Neither the beginning nor the end: the phase is not written.
pub const PHASE_CONTINUES: i64 = 0;

pub const PHASE_ENDED: i64 = 4;

/// What suppresses the animation.
pub const VELOCITY: i64 = 9999;

/// One event of a swipe. Progress and velocity are whole numbers that are
/// written as doubles.
#[derive(Clone, Copy, Debug, PartialEq, Eq, Structural)]
pub struct SwipeEvent {
    pub phase: i64,
    pub progress: i64,
    pub velocity: i64,
}

/// One swipe: to the next space for a direction that is not negative, else to
/// the previous one. It begins, continues and ends.
pub fn swipe(direction: i64) -> (r: [SwipeEvent; 3])
    ensures
        ({
            let sign: int = if direction >= 0 {
                -1
            } else {
                1
            };
            &&& r@[0] == (SwipeEvent { phase: PHASE_BEGAN, progress: 0, velocity: 0 })
            &&& r@[1] == (SwipeEvent {
                phase: PHASE_CONTINUES,
                progress: sign as i64,
                velocity: (sign * VELOCITY) as i64,
            })
            &&& r@[2] == (SwipeEvent {
                phase: PHASE_ENDED,
                progress: sign as i64,
                velocity: (sign * VELOCITY) as i64,
            })
        }),
        r@[0].phase == 1 && r@[1].phase == 0 && r@[2].phase == 4,
        forall|i: int|
            1 <= i <= 2 ==> {
                &&& direction >= 0 ==> (#[trigger] r@[i]).progress == -1 && r@[i].velocity == -9999
                &&& direction < 0 ==> r@[i].progress == 1 && r@[i].velocity == 9999
            },
{
    let sign: i64 = if direction >= 0 {
        -1
    } else {
        1
    };
    let velocity: i64 = if direction >= 0 {
        -9999
    } else {
        9999
    };
    [
        SwipeEvent { phase: PHASE_BEGAN, progress: 0, velocity: 0 },
        SwipeEvent { phase: PHASE_CONTINUES, progress: sign, velocity },
        SwipeEvent { phase: PHASE_ENDED, progress: sign, velocity },
    ]
}

/// The whole-number fields of one event, in the order they are written.
pub open spec fn integer_fields(e: SwipeEvent) -> Seq<(u32, i64)> {
    let fixed = seq![
        (FIELD_EVENT_TYPE, EVENT_DOCK_CONTROL),
        (FIELD_GESTURE_HID_TYPE, EVENT_TYPE_DOCK_SWIPE),
        (FIELD_GESTURE_MOTION, MOTION_HORIZONTAL),
    ];
    if e.phase != 0 {
        fixed.push((FIELD_GESTURE_PHASE, e.phase))
    } else {
        fixed
    }
}

/// The whole-number fields of one event, in the order they are written.
pub fn post(e: SwipeEvent) -> (r: Vec<(u32, i64)>)
    ensures
        r@ == integer_fields(e),
{
    let mut fields: Vec<(u32, i64)> = Vec::new();
    fields.push((FIELD_EVENT_TYPE, EVENT_DOCK_CONTROL));
    fields.push((FIELD_GESTURE_HID_TYPE, EVENT_TYPE_DOCK_SWIPE));
    fields.push((FIELD_GESTURE_MOTION, MOTION_HORIZONTAL));
    if e.phase != 0 {
        fields.push((FIELD_GESTURE_PHASE, e.phase));
    }
    assert(fields@ =~= integer_fields(e));
    fields
}

/// Every event of a swipe is a horizontal dock swipe, and says its phase exactly
/// if it begins or ends it.
pub proof fn law_swipe_events_say_what_they_are(e: SwipeEvent, field: u32, value: i64)
    ensures
        integer_fields(e).contains((field, value)) <==> {
            ||| field == 55 && value == 30
            ||| field == 110 && value == 23
            ||| field == 123 && value == 1
            ||| field == 132 && value == e.phase && e.phase != 0
        },
        integer_fields(e).len() == (if e.phase == 0 {
            3int
        } else {
            4
        }),
{
    let fields = integer_fields(e);
    assert(fields[0] == (55u32, 30i64));
    assert(fields[1] == (110u32, 23i64));
    assert(fields[2] == (123u32, 1i64));
    if e.phase != 0 {
        assert(fields[3] == (132u32, e.phase));
    }
}

} // verus!
