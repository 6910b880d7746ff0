# deep_time

Attosecond-resolution time arithmetic, written in Verus. Every function in
`src/` is checked by the verifier; most public functions state their result
in an `ensures` contract, and the laws that relate several functions are
stated as proof functions. One std call (`String::from_utf8`
on ASCII bytes) is trusted; it is the only item taken without proof.

- `src/dt/` — `Dt` (attoseconds plus time-scale tags): saturating arithmetic,
  floor/ceil/round to units, whole-unit readings, Julian and modified Julian
  days, conversion between TAI, TT, UTC (leap-second table, and SPICE's
  variant), GPS, QZSS, Galileo and BeiDou time and TCG (the IAU rate), and,
  with a correction the caller evaluates (a floating-point series or a
  historical table), TDB, ET, TCB (its rate step verified), LTC, TCL and
  SOFA's UTC, counts from the Unix, NTP, GPS and CXC epochs, GPS
  weeks, civil date and time fields with second 60 in a leap second and
  calendar month/year/day arithmetic, the proleptic Gregorian calendar (with
  proofs that the Julian-day encoding and decoding are inverse), ISO 8601 / media /
  `H:MM` duration parsers, the 19-byte wire format, the CCSDS unsegmented,
  day-segmented and calendar-segmented time codes, and the exact conversion
  of a binary64 bit pattern to attoseconds.
- `src/delta.rs` — `Delta` (seconds plus attoseconds) and its ISO 8601 text.
- `src/dt_big.rs` — `DtBig`, a 320-bit two's-complement integer.
- `app/` — floating-point conveniences (among them the ET correction), the
  system clock, and serde copies.
- `tests/` — example-based tests of the library.
