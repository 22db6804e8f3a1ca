pub mod calendar;
pub mod config_parser;
pub mod event_parser;
pub mod icstime;
pub mod neptunclass;
pub mod timetable;
pub mod navigation;
pub mod text;
