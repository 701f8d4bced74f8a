# chrono_etna

Calendar dates, UTC moments, rounding to a duration, and parsing of weekday names and
RFC 3339 date-times, written in Verus with their contracts proved. Four properties check
pieces of this library on one input each. A runner feeds them inputs from several
property-testing tools and reports each run as one line of JSON.

## Layout

- `src/date.rs`: dates as a year and a day of the year, and day counts from 0001-01-01.
- `src/weekday.rs`: weekdays and their names.
- `src/datetime.rs`: durations, moments with leap seconds, adding a duration to a moment,
  rounding to a multiple of a duration, and moments seen at a fixed offset.
- `src/scan.rs`: the low-level readers: numbers, fractions, weekday names, whitespace and
  offsets.
- `src/parse.rs`: parse items and the fields that parsing fills in.
- `src/strftime.rs`: reading a `strftime`-style format string into parse items.
- `src/rfc3339.rs`: the relaxed RFC 3339 reader behind `DateTimeOffset::from_str`.
- `src/text.rs`: writing numbers, dates and moments as text.
- `src/etna.rs`: the four properties and their result type.
- `src/report.rs`: verdicts, measurements, property names and the JSON report line.
- `app/main.rs`: the command-line runner (`etna <tool> <property>`), which drives
  proptest, quickcheck, crabcheck and hegel.
- `tests/`: tests of the library on concrete values.
