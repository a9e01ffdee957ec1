# gba_link_rs

Firmware for a Raspberry Pi Pico, on the way to an interface between a PC and the
GBA's link port. So far the Pico blinks an LED, counts how often it was lit, and
shows the count on an LCD. As a USB HID device it logs to the host, which can ask
for the count and set it.

* `src/` is the library: what to show, what to send and when, and how to take what
  the host sends. It is written in Verus: contracts state what each function does,
  and the proof functions state what holds of the device as a whole.
* `tests/` runs the library.
* `app/` drives the hardware. `PROGRAM` in `app/main.rs` selects the plain counter
  or the one with USB.

| module | |
| --- | --- |
| `decimal` | numbers as text |
| `log`, `text` | log messages, their queue, and texts put together from pieces |
| `report` | the HID report |
| `requests`, `count` | the host's requests, and the count that all share |
| `reporter` | what the device sends next |
| `delivery` | what the host can rely on |
| `command` | what the device does with what the host sends |
| `fault` | what is logged on a panic |
| `board`, `onboard`, `counter` | the steps of the board, with and without USB |
| `usb_device` | how the device presents itself |

The queues and the shared count are changed through `&mut`, so tasks on different
cores share them behind a lock (`app/shared.rs`).

The library allocates nothing. `Cargo.toml` selects features with which everything
builds on a workstation. A build for the Pico takes `arch-cortex-m` in place of
`arch-std` for `embassy-executor`, `time-driver` and `critical-section-impl` for
`embassy-rp`, no `std` for `critical-section`, and `#![no_std]` at the library's root.
