# mail_search

A desktop tool that indexes mail files of a directory and searches them by
keywords or regular expressions.

- `src/` is the library. What it computes is stated in contracts and proved with
  Verus: reading mails, choosing and skipping files, the statements of the index,
  searching, scoring, sorting, and the state of the window.
- `app/` is the program around it: the window, the threads, the files, and SQLite.
- `tests/` runs the library on given values, with SQLite where that matters.

What the library takes on trust stands in `src/text.rs` (three functions of
`std`), `src/pattern.rs` (the `regex` crate), `src/mail_parse.rs` (the
`mail-parser` and `encoding_rs` crates, and `std::str::from_utf8`) and
`src/scanner.rs` (the clock, by way of `chrono`).
