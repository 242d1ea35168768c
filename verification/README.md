# monit

A log monitor. Rules, read from a MongoDB collection, name a log file, a
regular expression and a destination collection. The library (`src/`,
verified with Verus) holds the logic: splitting log text into lines,
picking capture group 1 out of each matching line, counting and handing
the values over channels, batching them into records, the decisions of
following a rotated log file, and building the database address. The
program in `app/` reads the files, talks to MongoDB and runs the threads.

- `src/compiled.rs`: the regex crate calls and the compiled regex with its text.
- `src/pattern.rs`: log patterns, known by their pattern text.
- `src/logreader.rs`: lines, search, one step of the reading loop, laws.
- `src/config.rs`: rules and their reading and storing halves.
- `src/channel.rs`: the `std::sync::mpsc` calls.
- `src/recordprocessor.rs`: batches of values.
- `src/filehandler.rs`: the decisions of a read of a rotating log file.
- `src/mongointerface.rs`: database address and rules from document fields.
