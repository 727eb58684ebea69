//! Input pipeline of a split mechanical keyboard: debounced matrix scanning,
//! the frame codec of the link between the two halves, a bounded event queue,
//! layered keymap resolution, and the persisted keymap image.
//!
//! Every function is verified against a contract stated over the mathematical
//! model of its data. Hardware access (pins, the serial port, the flash chip,
//! the USB endpoint) is left to the firmware binary, which hands this library
//! plain values and acts on the plain values it gets back.

pub mod action;
pub mod keycode;
pub mod debounce;
pub mod keymap;
pub mod event;
pub mod layers;
pub mod resolver;
pub mod storage;
pub mod config;
pub mod split;
pub mod channel;
pub mod german;
pub mod layout;
pub mod matrix;
