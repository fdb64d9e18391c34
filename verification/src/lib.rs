//! Verified core of the KeyAura / layer HUD: Oryx Raw HID report decoding,
//! Voyager matrix mapping, layout identity and layout-document checks,
//! settings sanitisation, and the small state machines that drive the overlay.
pub mod text;
pub mod hid;
pub mod oryx;
pub mod json;
pub mod layout;
pub mod toggle;
pub mod grab;
pub mod watcher;
pub mod status;
pub mod config;
