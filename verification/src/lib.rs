//! Streams that ride PROFINET's cyclic IO data. One Stream is a run of
//! real-time class 1 frames: a chunk in each cycle's IO data, the cycle
//! counter stepping, the last cycle flagged, as many cycles as it takes.
//!
//! PROFINET is the process industry's Ethernet: the real-time classes
//! bypass IP altogether, a controller and a device exchanging one frame
//! each per cycle under `EtherType` `0x8892`, and DCP finding and naming
//! the devices before any cycle runs. What is here is DCP identify and set
//! ([`dcp`]), the cyclic frame with its APDU status trailer ([`cyclic`]),
//! a controller that speaks both ([`controller`]), and [`Device`] — an IO
//! device that answers DCP and mirrors the outputs it is sent back as its
//! inputs. [`InProcess`] puts a controller and a device on one link.
//!
//! The library knows no wire: it hands out the frames to transmit and takes
//! the frames that came in, as plain values. What holds of it as a whole is
//! proved in [`laws`].

pub mod controller;
pub mod cyclic;
pub mod dcp;
pub mod device;
pub mod error;
pub mod frame;
pub mod in_process;
pub mod laws;
pub mod text;
pub mod wire;

pub use controller::{Arrived, Counters, ProfinetTransport};
pub use cyclic::Cyclic;
pub use dcp::{Block, Dcp, Service};
pub use device::Device;
pub use error::Error;
pub use frame::{Frame, Mac};
pub use in_process::InProcess;
