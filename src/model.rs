pub mod arrival;
pub mod bus;
pub mod calendar;
pub mod clock;
pub mod route_pattern;
pub mod timetable;
