//! Input decoding, panel geometry and the page's state machine for the
//! Tom Riddle diary on reMarkable tablets.

pub mod evdev;
pub mod panel;
pub mod pen;
pub mod touch;
pub mod rm2fb;
pub mod display;
pub mod diary;
pub mod layout;
pub mod power;
pub mod bounds;
