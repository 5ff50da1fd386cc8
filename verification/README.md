# wifi-densepose-tactical

Decision support for a sensed building. WiFi sensing says in which rooms human
presence is detected, whether it moves and whether breathing was resolved; the
library keeps the floor plan, the tracked contacts, the health of the sensor
nodes and the radar readings, and gives out one picture of it all. Every output
is advisory: a contact is anonymous presence, and absence of a contact does not
mean that a room is empty.

## Layout

- `src/` is the library, verified with Verus.
  - `domain/` holds the floor plan, readings, contacts and the picture.
  - `engine/` tracks contacts: `state.rs` says how each event changes what the
    engine holds, `mod.rs` is the engine, `laws.rs` what holds of it as a whole.
  - `entry.rs` orders the rooms of a picture by the attention they warrant.
  - `ble.rs` tracks Bluetooth devices nearby.
  - `bridge/` decodes channel-state frames and buffers them for the server.
  - `ingest.rs` stands before the detector, `server.rs` holds decisions of the
    server, `sim.rs` is a scripted scenario.
  - `clock.rs`, `ids.rs`, `measure.rs`, `ranked.rs`, `seqs.rs`, `table.rs` and
    `text.rs` are what the rest is built on.
- `tests/` runs the library with the real localizer, detector and frame decoder.
- `app/` is the server, the bridge program and the Android entry point: network,
  JSON and arithmetic on measured quantities. Started under the name
  `ruview-csi-bridge`, the program is the bridge. The dashboard page is read from
  `assets/tactical.html` beside the server.

## What is trusted

Six calls leave the library: `Utc::now` of chrono, `Uuid::new_v4` and the text
form of a UUID, the text form of an error of serde_json,
`str::eq_ignore_ascii_case` of std, and `Esp32CsiParser::parse_stream` of
wifi-densepose-hardware. What is believed of
each stands above its declaration.

Measured quantities are held by their IEEE-754 bits. The library stores and
orders them; `measure.rs` proves that the order is that of the numbers.
