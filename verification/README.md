# tesla_fan_control

Fan control for passively cooled NVIDIA GPUs whose case fans hang on a
motherboard PWM channel.

`src/` is the library: every decision of the daemon, free of I/O, written in
Verus and proved against its contracts.

| module | what it decides |
|---|---|
| `units`, `curve` | percentages and duty values; the rising, piecewise linear fan curve |
| `group` | the target of a cooling group: clamp each GPU's wish to its band, take the maximum |
| `config`, `document`, `schema` | what a configuration file means, and the first error in it |
| `rules` | every rule that a configuration breaks |
| `watchdog` | when bad readings become a fault; what is written to the watchdog device |
| `fan` | the life of a PWM channel, spin-up grace, the health of a fan |
| `chip` | which hwmon directory belongs to a fan |
| `nvml`, `power` | what readings of the GPUs mean; when a recurring check is due |
| `logger` | where the log goes |
| `text`, `paths`, `idmap` | strings, paths and maps from names |

The INI grammar is that of the `rust-ini` crate: `document` hands the text to its
parser and works on the sections that come back.

`app/` is the program around the library: arguments, files, `/dev/watchdog`, the
NVIDIA management library and the log.

`tests/` runs the library on concrete values.
