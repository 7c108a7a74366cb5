# aprs-decode

Parsing and encoding of APRS packets, verified with Verus.

Two wire forms are handled:

- **Text (APRS-IS)**: `FROM>TO,VIA:DATA`
- **Binary (AX.25)**: UI frames as a TNC or software modem delivers them

Every decoder states, in its `ensures`, what it returns as a function of the
bytes it reads, and every error with the inputs that cause it; every encoder
states the bytes it writes. The round trips are proved for every decoded
packet that `round_trip::packet_covered` admits: content the encoders can
write (`data_encodable`), Q-constructs whose tokens read back as themselves,
and MIC-E values within what the MIC-E encoder writes (`mic_e_exact`):

- `round_trip::lemma_textual_round_trip`: the textual form of a decoded packet
  decodes to the same packet; `lemma_textual_canonical`: a written form is
  written again byte for byte;
- `round_trip::lemma_ax25_round_trip` and `lemma_ax25_canonical`: likewise
  for the AX.25 frame; `lemma_textual_to_ax25`: a packet decoded from text,
  whose addresses an AX.25 frame holds, comes back from its frame;
- per kind of content (position, object, item, message, status, telemetry,
  weather, MIC-E, query, grid locator, ...), a lemma next to its parser.

## Layout

- `src/`: the verified library. `packet.rs` holds the packet type, the
  dispatch on the data type indicator and the two wire forms; each kind of
  content has a module of its own; `lonlat.rs`, `location.rs`,
  `compressed.rs`, `extensions.rs` and `timestamp.rs` hold the shared field
  formats; `round_trip.rs` holds the packet-level laws.
- `tests/`: scenario tests.
- `app/`: what the library leaves to its host: the `std::error::Error` form
  of `AprsError`, floating-point views of the exact values (degrees, knots,
  metres, telemetry readings) and the serde form of a callsign.

## Units

Coordinates are kept as exact integers: one degree is 11 427 780 000
coordinate units, so hundredths of a minute, DAO refinements and compressed
(base-91) steps are all whole numbers of units. Decimal fields (telemetry
readings, query footprints, frequencies) are kept as the number text that was
received, trimmed, and exactly when `str::parse` would read it as a number.
