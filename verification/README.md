# catplay

The verified core of a bridge between phones that speak CarPlay and cars.

- `bits`, `golomb`, `bit_reader`, `bit_writer`: bit strings and Exp-Golomb codes.
- `sps`, `idr`, `nal_rewriter`, `nal_laws`: H.264 parameter sets and IDR slices as x264 writes them,
  rewritten to what Apple devices send.
- `x264`: encoder settings, and delivery of what the encoder produces.
- `audio`, `pcm_proxy`, `rtp_sink`: pacing of PCM samples.
- `endian`, `float`, `text`, `buffer`, `screen_frame`, `screen_tx`: frames of the screen stream, and
  the state machine that sends them.
- `ascii`, `info`: what a receiver says of itself.
- `i2c`, `mfi`: registers on an I2C bus, and the authentication coprocessor behind them.
- `time`: spans and instants.

`src/` is the library. A function states what it does in `requires` and `ensures`; the `From`
conversions state it through the `from_spec` of their trait. The functions named `law_..` state what
holds across functions and over whole runs. `tests/` runs the library. `app/` is what surrounds it:
tasks, sockets, devices, the encoder and wire formats.
