//! Process-wide keyboard and mouse input for a host that polls once per tick.
//!
//! Input hooks run on threads of their own and push what they see into
//! channels. Once per tick the host drains those channels, derives the
//! narrower events, refreshes the cached pointer position and forwards its own
//! pointer commands to the dispatcher thread. This crate holds the rules of
//! all that: what the registry of hotkeys contains and which triggers it
//! wants, which events derive from which, where the pointer is taken to be,
//! and what each thread does next. Installing hooks, running threads and
//! calling into the system are left to the caller.

pub mod channel;
pub mod hook;
pub mod keys;
pub mod provide_mki;
pub mod provide_mouce;

pub use hook::{HookBridge, HookDevice, HookFailure, HookInstallFailed};
pub use provide_mki::{GlobalHotkeyEvents, GlobalHotkeys, GlobalKeyEvents, GlobalKeys, HotkeyCommand};
pub use provide_mouce::{
    GlobalMouseButton, GlobalMouseButtonEvents, GlobalMouseEvents, GlobalMousePos,
    GlobalScrollDirection, GlobalScrollEvents, MouseControl, MouseEvent,
};
