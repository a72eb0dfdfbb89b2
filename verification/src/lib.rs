//! The decision-making core of `macrdp`, a native RDP server for macOS.
//!
//! Everything here computes on plain values. The program around the library
//! owns the sockets, the Apple frameworks and the clock; it hands events in and
//! performs the actions that come back.

pub mod wire;
pub mod dib;
pub mod utf16;
pub mod clipboard;
pub mod input;
pub mod keys;
pub mod text;
pub mod usb_redirect;
pub mod pixels;
pub mod cursor;
pub mod capture;
pub mod audio;
pub mod aac;
pub mod auth;
pub mod camera;
pub mod smartcard;
pub mod ifd;
pub mod file_promise;
pub mod paths;
pub mod logging;
pub mod tls;
pub mod config;
pub mod rdpdr;
pub mod runloop_thread;
pub mod switcher_hud;
pub mod videotoolbox;
pub mod virtual_display;
