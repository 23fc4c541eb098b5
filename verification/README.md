# micronuts

Verified core of the Micronuts Cashu hardware-wallet stack: the wire
protocols between host and device, the QR scanner driver and payload
decoding, the device's screen flow and boot splash, and the host-side swap
harness and service bridge.

## Layout

- `src/` — the library, verified with Verus.
  - `protocol`, `usb`, `host_protocol`: the `[cmd][len:2][payload]` frame
    codecs and streaming decoders of the device application, the board
    firmware and the host tool.
  - `frag`: segmentation and strict in-order reassembly of service
    datagrams.
  - `qr::protocol`, `qr::driver`, `qr::decoder`: GM65 command frames, the
    UART driver state machine, payload classification, UR fragment parsing
    and multi-part reassembly.
  - `app_flow`: the device application's screen flow as a state machine.
  - `scan_screen`, `layout`: what the scan-result, home and QR screens
    show and where, as plain values for the drawing code.
  - `boot_splash`, `framebuffer`: the splash animation rendered pixel by
    pixel, and the double-buffered framebuffer.
  - `command`: the host-command dispatch: reply and next swap state from
    what the hardware and crypto produced for a command.
  - `swapscript`, `service`, `mint_json`, `util`, `prng`, `self_test`,
    `state`, `firmware_state`, `uart_log`, `hardware`: the swap script,
    the RPC service boundary, JSON error bodies, hex coding and small
    device helpers.
- `tests/` — tests of the library.
- `app/` — glue that Verus does not see: an embedded-hal UART for the
  scanner driver, an embedded-graphics draw target over the framebuffer,
  the device the screen flow drives, the boot-splash loop, and the loops
  that perform what the state machines decide.
