//! How the device presents itself on the bus.
use vstd::prelude::*;

verus! {

pub const VENDOR_ID: u16 = 0x5f56;

pub const PRODUCT_ID: u16 = 0xc0d8;

/// Milliamperes that the device may draw.
pub const MAX_POWER: u16 = 100;

/// Bytes of a packet on the control endpoint.
pub const CONTROL_PACKET_SIZE: u8 = 64;

/// Bytes of a packet on the HID endpoints.
pub const HID_PACKET_SIZE: u16 = 64;

/// Milliseconds between two polls by the host.
pub const HID_POLL_MS: u8 = 10;

/// The numbers under which the device presents itself.
pub proof fn device_identity()
    ensures
        VENDOR_ID == 0x5f56,
        PRODUCT_ID == 0xc0d8,
        MAX_POWER == 100,
        CONTROL_PACKET_SIZE == 64,
        HID_PACKET_SIZE == 64,
        HID_POLL_MS == 10,
{
}

/// Which report a control request is about.
#[derive(Clone, Copy, Debug, PartialEq, Eq, Structural)]
pub enum ReportId {
    In(u8),
    Out(u8),
    Feature(u8),
}

/// The answer to a control transfer from the host.
#[derive(Clone, Copy, Debug, PartialEq, Eq, Structural)]
pub enum OutResponse {
    Accepted,
    Rejected,
}

/// Answers the host's control requests for reports: the device has no report to give
/// that way, and takes every report without using it.
#[derive(Debug)]
pub struct USBRequestHandler {}

impl USBRequestHandler {
    /// Gives no report, and leaves the buffer as it is.
    pub fn get_report(&mut self, _id: ReportId, _buf: &mut [u8]) -> (size: Option<usize>)
        ensures
            size is None,
            final(_buf)@ == old(_buf)@,
            *final(self) == *old(self),
    {
        None
    }

    /// Takes a report.
    pub fn set_report(&mut self, _id: ReportId, _data: &[u8]) -> (response: OutResponse)
        ensures
            response == OutResponse::Accepted,
            *final(self) == *old(self),
    {
        OutResponse::Accepted
    }

    /// Takes an idle rate.
    pub fn set_idle_ms(&mut self, _id: Option<ReportId>, _dur: u32)
        ensures
            *final(self) == *old(self),
    {
    }

    /// Gives no idle rate.
    pub fn get_idle_ms(&mut self, _id: Option<ReportId>) -> (dur: Option<u32>)
        ensures
            dur is None,
            *final(self) == *old(self),
    {
        None
    }
}

/// Follows whether the host has configured the device.
#[derive(Debug)]
pub struct USBDeviceHandler {
    configured: bool,
}

impl View for USBDeviceHandler {
    type V = bool;

    closed spec fn view(&self) -> bool {
        self.configured
    }
}

impl USBDeviceHandler {
    /// A device that is not configured.
    pub fn new() -> (handler: Self)
        ensures
            !handler@,
    {
        Self { configured: false }
    }

    /// Whether the host has configured the device.
    pub fn is_configured(&self) -> (configured: bool)
        ensures
            configured == self@,
    {
        self.configured
    }

    /// The bus was reset: the device is no longer configured.
    pub fn reset(&mut self)
        ensures
            !final(self)@,
    {
        self.configured = false;
    }

    /// The bus was switched on or off: either way the device is not configured.
    pub fn enabled(&mut self, _enabled: bool)
        ensures
            !final(self)@,
    {
        self.configured = false;
    }

    /// The host gave the device an address: it is yet to be configured.
    pub fn addressed(&mut self, _addr: u8)
        ensures
            !final(self)@,
    {
        self.configured = false;
    }

    /// The host configured the device, or took that back.
    pub fn configured(&mut self, configured: bool)
        ensures
            final(self)@ == configured,
    {
        self.configured = configured;
    }
}

}
