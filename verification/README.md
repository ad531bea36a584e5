# synclite

A file synchronisation and backup tool. The library in `src/` holds the
tool's logic, verified with Verus; `app/` is the command-line program around
it (argument parsing, file and network I/O, progress output).

Library modules:

- `text`, `path`: string and Unix path operations with their meaning stated
  over `Seq<char>` (prefixes, substrings, splitting, decimal numbers, file
  names, joining, component-wise prefixes).
- `pattern`: exclude patterns with `*` wildcards, matched through `regex`.
- `config`: the sync configuration, its defaults, destination parsing
  (`s3://bucket/prefix`, `sftp://host:port/path`) and exclusion.
- `hash`: SHA-256 content hashes in hex (`sha2`, `hex`), quick hashes from
  file metadata, and the cache of file information.
- `storage`: local, S3 and SFTP destinations and where a path lies in each.
- `sync`: the sync plan for push, pull and bidirectional modes (a file has
  changed when its size differs or, where the destination knows it, its
  SHA-256 digest does), and what each planned operation does.
- `backup`: backup names and locations, what a restore reads from, the
  newest-first history and cleanup.
- `scheduler`: cron expressions (`cron`), scheduler entries, the scheduler loop's decision.
- `watcher`: ignored file events and the debounced sync decision.
