//! A mail search tool: mails are read from files, kept in an index, searched by
//! keywords or regular expressions, sorted and shown.
//!
//! - `mail_parse` reads a mail from the bytes of a file.
//! - `scanner` decides which files of a directory are indexed and what is stored.
//! - `db` holds the statements that the index is read and written with.
//! - `search` finds mails by regular expressions and counts keywords.
//! - `sort` puts what was found in order.
//! - `viewer` makes a mail ready to show.
//! - `session` holds what the window knows: the form, the log, the running scan.
//! - `open_file` names the programs that open files and folders.
//! - `laws` says what all these functions promise of their results.
//! - `arrange`, `pattern`, `text`, `order` and `numerals` are what the others are
//!   built of.
pub mod arrange;
pub mod db;
pub mod laws;
pub mod mail_parse;
pub mod numerals;
pub mod open_file;
pub mod order;
pub mod pattern;
pub mod scanner;
pub mod search;
pub mod session;
pub mod sort;
pub mod text;
pub mod viewer;
