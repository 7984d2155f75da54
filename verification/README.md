# wattwise

A Linux power manager whose decision logic is verified with Verus.

- `src/` is the verified library:
  - `power.rs`: performance tiers, core parking with its 3 s holds and 12-sample
    patience, burst handling, turbo, thermal caps and the power-saving policies. One
    sample of the machine goes in; the ordered list of operations comes out, with the
    time to the next sample. The proof functions `law_*` state the properties that
    hold across samples.
  - `events.rs`: the event history, the log line format and the reading back of the log.
  - `monitor.rs`: CPU tick accounting and per-core sysfs facts.
  - `battery.rs`, `vendors/`: battery readings and charge thresholds (generic, Asus, IdeaPad).
  - `config.rs`, `sysfs.rs`, `text.rs`: settings, sysfs writes, text parsing and rendering.
- `app/` is the daemon and command line around it: file and process I/O, `sysinfo`
  and `procfs` readings, JSON, and the floating-point parts (load averages,
  temperatures, percentages).
- `tests/` runs the library on concrete inputs.
