//! A Pico that counts how often it has switched its LED on, shows the count on an
//! LCD, and logs to a USB host, which can ask for the count and set it.
pub mod board;
pub mod command;
pub mod count;
pub mod counter;
pub mod decimal;
pub mod delivery;
pub mod fault;
pub mod log;
pub mod onboard;
pub mod report;
pub mod reporter;
pub mod requests;
pub mod text;
pub mod usb_device;
