use vstd::prelude::*;

verus! {

/// A calendar date.
#[derive(Clone, Copy, Debug, PartialEq, Eq, Structural)]
pub struct Date {
    pub year: i32,
    pub month: u32,
    pub day: u32,
}

/// A time of day, in milliseconds since midnight.
#[derive(Clone, Copy, Debug, PartialEq, Eq, Structural)]
pub struct TimeOfDay {
    pub millis: u32,
}

/// A moment as read on a clock at a fixed offset from UTC: the local date, the
/// local time of day, and the offset in seconds east of UTC.
#[derive(Clone, Copy, Debug, PartialEq, Eq, Structural)]
pub struct LocalDateTime {
    pub date: Date,
    pub time: TimeOfDay,
    pub offset_seconds: i32,
}

/// Absolute distance between two times of day, without wrapping at midnight.
pub open spec fn time_distance(a: TimeOfDay, b: TimeOfDay) -> int {
    if a.millis >= b.millis {
        a.millis - b.millis
    } else {
        b.millis - a.millis
    }
}

impl TimeOfDay {
    /// Distance to `other` in milliseconds, without wrapping at midnight.
    pub fn distance(&self, other: &TimeOfDay) -> (r: u32)
        ensures
            r == time_distance(*self, *other),
    {
        if self.millis >= other.millis {
            self.millis - other.millis
        } else {
            other.millis - self.millis
        }
    }
}

} // verus!
