# kondo

kondo organizes files: it moves each file of its source directories to the
directory that its extension's rule names, deduplicates or skips files whose
destination already holds identical content, reports what it did, and can
install itself as a user cron job.

## Layout

- `src/` is the library, verified with Verus. Its public functions state
  their results in their contracts.
  - `text.rs`, `fmt.rs`: the string and number helpers the rest is built on
    (trimming, splitting, joining, lines, decimal and hexadecimal text).
  - `config.rs`: the configuration, tilde expansion, extension normalization
    and the extension map.
  - `organize.rs`: the steps for a source directory's listing (excluded
    files are left alone and reported as excluded), where a file goes, what happens when its destination exists, reading dashify's
    output, and what a run records.
  - `report.rs`: actions, report entries, counts, and the printed report's
    lines, with the part of each that is shown in colour.
  - `cache.rs`: directory snapshots, the unchanged-directory check,
    dropping snapshots taken under another configuration, and SHA-256
    hashing of contents and configuration.
  - `pattern.rs`: the glob patterns (`*`, `?`, `[...]`) of the exclude
    list.
  - `cron.rs`: the human-readable description of cron schedules, and the
    crontab edits that install and remove kondo's entry.
  - `cli.rs`: the command line's model and the tool-status help text.
  - `strmap.rs`: a map keyed by strings, viewed as a `Map`.
- `app/` is the program around it: argument parsing, files, processes,
  logging and coloured output.
- `tests/` runs the library on concrete values.

The laws the library keeps are public proof functions whose names start with
`law_`: for example, that installing the cron entry leaves exactly one kondo
line; that a second install changes nothing and an uninstall undoes an
install (for crontabs whose other lines do not end in carriage returns or
in two empty lines); that a directory just recorded counts as unchanged
exactly when a fresh snapshot lists the same files; and that an extension is
routed to the directory of the rule that lists it when no other rule lists
it too, while the last rule's extensions always go to its directory.
