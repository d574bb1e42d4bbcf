//! Verified core of a flame-chart trace viewer.
//!
//! The library holds the logic of the viewer: parsing the trace container's
//! text members, the shared trace store with its batched loading pipeline,
//! the navigation state of the flame chart (pan, zoom, hit-testing), and the
//! popup-menu state machine.  The host around it owns the window, the event
//! loop and the drawing surface; it hands the library plain values (bytes,
//! pixels, events) and receives plain values back (records, draw plans,
//! selections).

pub mod archive;
pub mod bytes;
pub mod data;
pub mod event;
pub mod menu;
pub mod shell;
pub mod view;
pub mod zoom;
