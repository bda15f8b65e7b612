# wireless_m_bus

Wireless M-Bus, EN 13757-4 frame format A, verified with Verus: the link layer frame of
length, control, manufacturer, address and control information with a CRC per block, and the
conversations that carry a Stream between a device and a meter over it.

- `src/crc.rs`: CRC-16/EN-13757.
- `src/frame.rs`: the frame, its encoding and decoding, and the label of a link address.
- `src/device.rs`: the device's conversations (exchange, initialise, write, read, listen), each
  a value that says what to do next and goes on with what came of it.
- `src/loopback.rs`: a meter's radio in process.
- `src/session.rs`: whole conversations between a device and that radio, and what holds of them.
- `src/error.rs`, `src/record.rs`, `src/text.rs`: the errors, what stands ahead of the records, and
  numbers as text.
- `app/`: the same on a real line, with the records and the meter of the `m_bus` crate and the
  traits of the `transport` crate.

Nothing in `src/` is taken on trust: no function there is exempt from verification.
