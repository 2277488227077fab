//! Drivers that sit between the hardware-facing ring channels and the
//! applications.

pub mod accumulator;
pub mod frame;
pub mod port_queue;
pub mod registry;
pub mod ring;
pub mod usb_serial;
