use vstd::prelude::*;

pub mod clock;
pub mod board;
pub mod common;
pub mod config;
pub mod corridor;
pub mod diagram;
pub mod diagram_page;
pub mod diagram_plan;
pub mod diagram_finish;
pub mod disruption;
pub mod error;
pub mod escape;
pub mod nav;
pub mod order;
pub mod layout;
pub mod map;
pub mod mapweb;
pub mod matching;
pub mod page;
pub mod playback;
pub mod realtime;
pub mod ribbons;
pub mod schedule;
pub mod snapshot;
pub mod status;
pub mod text;
pub mod textbuf;
pub mod time;
pub mod timetable;
pub mod timetable_page;

verus! {

} // verus!
