//! A minimal application dock: icon lookup over themed icon directories,
//! desktop entry parsing, and the window-property protocol that marks the
//! dock window and enumerates the other top-level windows.
pub mod text;
pub mod icons;
pub mod entry;
pub mod protocol;
pub mod scan;
