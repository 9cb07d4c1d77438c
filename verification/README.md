# gps_sdr

The verified core of a GPS L1 C/A signal generator, written in Verus.

`src/` holds the logic with its contracts and laws:

- `calendar`, `leap_seconds`, `gps_time`, `civil`: Gregorian day counts, the
  GPS-UTC leap-second history, conversions between UTC labels (including the
  inserted second `23:59:60`) and continuous GPS seconds, and requested start
  instants: RFC 3339 timestamps parsed by `jiff` and their UTC fields.
- `rational`, `sizing`, `timeline`: exact rational arithmetic, the 64 MiB
  block limit, and the sample timeline that cuts emitted samples into blocks
  at update-step boundaries, the finite target and 30-second frame deadlines.
- `codegen`, `subframes`, `nav_message`, `signal_state`: C/A Gold codes, the
  bit layout of the five LNAV subframes, IS-GPS-200 word parity and the
  frame's data words, and the per-sample integer state of a channel.
- `packing`: the 1-, 8- and 16-bit I/Q output formats.
- `allocation`, `pending`, `run_state`, `config`, `ephemeris_sets`,
  `periodic`: channel allocation, the runtime motion command queue,
  finite-run outcomes, setting validation, the grouping of ephemeris records
  into hourly sets, and the decisions taken at each frame deadline.

`app/` holds what Verus does not check: file output, floating-point time and
parameter scaling, the error type with `Display`, and the thread-shared
command queue. `tests/` runs the library on concrete values.

Not part of this crate: the generator builder and its run loops, per-sample
channel synthesis (it needs the carrier and antenna tables), the motion
integrator, the geodetic geometry, the RINEX, motion-file and NMEA readers,
and the command-line program. They are floating-point computation or file
reading around the decisions above; RINEX reading also needs a parser that
is not available here.
