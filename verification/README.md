# Iris

Camera capture, control and streaming for agentic systems: USB camera
capture, camera controls by name, named profiles, frame fan-out to several
consumers, snapshots for vision models, and an IPC bridge.

The library under `src/` is written in Verus. Every function there carries a
contract that Verus proves; the calls into outside crates (JPEG encoding, a
few std conversions, the clock) sit behind small trusted wrappers whose
contracts say what is assumed of them. JPEG decoding runs in `app/`, where a
panic of the decoder on a malformed frame can be caught; the library takes the
decoder's output as an argument and is verified for every value of it.

- `src/` — the verified library: frames, ROI cropping, the MJPEG path, the frame
  ring, snapshots and base64, control names and capability checks, profiles,
  configuration checks, the capture and stream service cores, the health
  service's state, the hardware layer's parsing and bookkeeping, the IPC
  vocabulary and the pipeline metrics text.
- `app/` — the program around it: configuration files, logging, the
  asynchronous services and their channels, the V4L2 ioctls, the JPEG decoder,
  serialisation and the JSON-lines bridge.
- `tests/` — tests of the library.
