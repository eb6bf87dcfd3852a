# bookrs

A room booking system for one hotel, whose decisions are verified with Verus.

- `src/` is the verified library: the hotel configuration and room numbering,
  the nightly booking calendar, the search for rooms free for a whole stay and
  the choice among them, the protocol that books a room night after night
  against the calendar store, and the reading of the operator's input.
- `app/` is the program around it: the TOML configuration file, the SQLite
  calendar store, the interactive loop, and a simulation that loads bookings
  from a CSV file with polars.
- `tests/` runs the library on concrete values.
