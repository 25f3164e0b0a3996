# profinet

PROFINET's real-time class 1 over raw Ethernet, verified with Verus: DCP
identify and set, cyclic frames with a `FrameID` and the APDU status trailer; a
Stream rides in the IO data across as many cycles as it takes.

- `src/wire.rs`, `src/text.rs`: big-endian fields, and text in frames and messages
- `src/frame.rs`: Ethernet addresses and frames as plain values
- `src/dcp.rs`: the discovery and configuration protocol
- `src/cyclic.rs`: the cyclic frame, runs of cycles and the Streams they carry
- `src/device.rs`: an IO device that answers DCP and mirrors its outputs
- `src/controller.rs`: the controller, its exchanges one event at a time
- `src/in_process.rs`: a controller and a device on one in-process link
- `src/laws.rs`: what holds of the library as a whole
- `app/`: the transport on an Ethernet carrier's link; the carrier is the
  `ethernet` and `transport` crates
