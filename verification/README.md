symbiosis
=========

Library parts of the Sailfish OS TOH daemon, verified with Verus, and the daemon and tools
around them.

The daemon detects a connected TOH (The Other Half), reads its memory chip, publishes the TOH info
on D-Bus and starts and stops systemd units that the TOH configs name.

Layout
------

- `src/` is the verified library:
  - `frame.rs`: the header and checksum of memory chip content;
  - `info.rs`: TOH info and its payload map, both ways, and reading it from chip content;
  - `cbor.rs`: decoding of the CBOR payload with `ciborium`;
  - `value.rs`, `yaml.rs`, `dbus_value.rs`: CBOR, YAML and D-Bus values and the extra values of
    TOH info;
  - `strmap.rs`: maps keyed by strings, in key order;
  - `config.rs`: TOH configs, overrides, units and permissions;
  - `back_cover.rs`, `id.rs`, `interrupt.rs`, `power.rs`, `bus.rs`, `attr.rs`: the states of a
    connected TOH and the decisions on its ID pin, interrupt pin, power and I²C bus;
  - `loan.rs`: lending i2c-dev access to one D-Bus client at a time;
  - `daemon.rs`: the decisions of the daemon's main loop;
  - `text.rs`, `paths.rs`, `errors.rs`: text handling, device paths and error types.
- `app/` is the daemon and the chip tools: device files, D-Bus, systemd, CBOR encoding (it
  rebuilds floating point numbers) and YAML decoding.
- `tests/` holds the tests of the library.
