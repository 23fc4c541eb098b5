//! Verified core of the Micronuts device, host and bridge stack.
pub mod bytes;
pub mod frag;
pub mod protocol;
pub mod qr;
pub mod usb;
pub mod host_protocol;
pub mod prng;
pub mod swapscript;
pub mod firmware_state;
pub mod self_test;
pub mod state;
pub mod uart_log;
pub mod framebuffer;
pub mod service;
pub mod util;
pub mod boot_splash;
pub mod mint_json;
pub mod app_flow;
pub mod command;
pub mod hardware;
pub mod scan_screen;
pub mod layout;
