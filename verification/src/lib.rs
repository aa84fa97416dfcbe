//! Backlight power control without the I/O: the rules by which backlight
//! devices are found under a directory and by which a device's power state
//! is flipped, stated over plain values and proved.
//!
//! The caller reads directories and files and hands over what it found; the
//! library decides what is a device, what a control file says, and what is to
//! be written back.
//!
//! # Toggling a device
//!
//! ```no_run
//! use rust_lcd::Device;
//! use std::fs;
//!
//! let device = Device::new("/sys/class/backlight/intel_backlight");
//! let flip = device.toggle(fs::read_to_string(device.bl_power())).unwrap();
//! let written = fs::write(flip.location(), flip.text());
//! let new_state = flip.finish(written).unwrap();
//! assert!(new_state == 0 || new_state == 1);
//! ```
//!
//! # Finding the devices
//!
//! ```no_run
//! use rust_lcd::{iterate_devices, Event, Step, BACKLIGHT_PATH};
//! use std::fs;
//! use std::path::Path;
//!
//! let mut scan = iterate_devices(fs::read_dir(BACKLIGHT_PATH)).unwrap();
//! let mut event = Event::Resume;
//! loop {
//!     event = match scan.next(event) {
//!         Step::Advance => Event::Listed(scan.readdir().and_then(|listing| {
//!             listing.next().map(|entry| entry.map(|e| e.path().display().to_string()))
//!         })),
//!         Step::Probe(control) => Event::Probed(Path::new(&control).is_file()),
//!         Step::Yield(device) => {
//!             println!("{:?}", device);
//!             Event::Resume
//!         }
//!         Step::Finish => break,
//!     };
//! }
//! ```

pub mod decimal;
pub mod device;
pub mod discovery;
pub mod error;
pub mod location;

pub use device::{bl_power, Device, DeviceView, Flip, FlipView, BACKLIGHT_PATH, BL_POWER};
pub use discovery::{iterate_devices, DeviceIter, Event, Scan, Signal, Step, StepView};
pub use error::Error;
