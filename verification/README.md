# zugluft

The decision logic of zugluft, a Windows fan-control tool (service, CLI and
desktop app talking over named pipes), as a library verified with Verus.

## Layout

- `src/` — the verified library.
  - `chars` — character classes, trimming, search, decimal/hex numbers.
  - `hw` — which LibreHardwareMonitor sensors count, how a hardware node
    becomes a chip description, the identifier hash, fan index checks.
  - `assoc`, `table` — the key/value map and the per-chip table that every
    store is built on.
  - `stores` — chip identity, curve assignments, manual targets, and what a
    target request or curve assignment does to them.
  - `config` — display names, units, hidden devices/categories/channels,
    graph overrides and dashboard pins, the list steps behind the edits to
    `config.toml`,
    the starter config text, and which readings the sensor list shows
    with which colour slot.
  - `toml_doc`, `config_file` — editing `config.toml` through `toml_edit`:
    what each edit does to the items it is about, that emptied tables are
    pruned, that everything else reads as before, and that text which is
    not TOML is never rewritten.
  - `ui` — sensor keys, line styles, palette, views, bundled icons, and
    when the service is sent the config's definitions.
  - `text_edit`, `keys` — the single-line editor and its key handling.
  - `ipc` — curve sources, the pipe server's open mode, UTF-16 strings,
    message framing.
  - `cli` — `zugluftctl` argument handling, the fan-baseline file format,
    following a calibration run, how the status listing names a fan's
    control.
  - `service` — request coalescing, calibration sequencing and its restore
    plan.
- `tests/` — tests of the library.
- `app/` — the I/O around it: the pipe wire format, reading and writing
  the config file, the service's JSON stores, the baseline file, the service-client
  CLI commands, the sensor list's unit conversion, and the floating-point
  curve math.
