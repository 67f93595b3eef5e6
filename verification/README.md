# sqsearch

A barebones file database: it indexes a filesystem, watches it for changes, and finds files
by substrings of the names along their paths.

`src/` is the logic, verified with Verus. It reads events, decides what to ask the database,
and writes answers, but touches neither the filesystem nor the database itself.

| Module | What it does |
| --- | --- |
| `file_handle`, `util` | file handles, and numbers out of bytes |
| `fanotify`, `fanotify_reader` | the events of a fanotify group |
| `watchpath`, `filter` | which files are watched |
| `watcher` | from events to changes, and from changes to requests to the database |
| `discoverer` | walking through directories, and placing the files that were found |
| `db` | requests and their answers, path queries, and what both mean |
| `gen_suffixes_vtab` | the suffixes of names |
| `indexer` | adding all files of a filesystem |
| `queryer` | answering queries, line by line |
| `text` | taking text apart and putting it together |

Work that goes back and forth with the outside is written as a value that says what is to be
done next and takes what came of it: `Batch`, `Walk`, `Answer`, `IndexPath`, `EnsureRoot`,
`GetPath`. What such a value does is stated over a mathematical model of it, and functions
named `law_..` state what holds of whole runs: `watcher::effect` what a change does to the
table of files, `watcher::writes` that changes are written together or not at all,
`watcher::tree` that moves and discoveries keep the table a tree, `db::root` how a database
gets its root directory, `db::suffix_index` that the suffixes keep in step with the table,
`db::meaning` and `db::results` which files a query finds, `discoverer` that files are placed
where they were found, and `queryer` what an answer looks like and which files it lists.

`app/` is the program around the library: arguments, SQLite, system calls and threads.

Two functions of the standard library are taken on trust, both in `text`:
`String::from_utf8_lossy` and `std::str::from_utf8`.

The laws on the table of files rest on a model of SQLite that nothing proves: what each
statement comes to and does to the table (`comes_to` in `db::table`), what the triggers do to
the table of suffixes (`db::suffix_index`), how texts compare under its `NOCASE` collation
(`db::collation`), and which rows the statement for a query has (`query_rows` in
`queryer::found`). The tests run the statements on SQLite itself.
