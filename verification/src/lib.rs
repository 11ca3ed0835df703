//! A browser for directories of Markdown documents that may open with a
//! front-matter header.
//!
//! `frontmatter` finds the header of a text, `yaml` reads it as a stream of
//! YAML events, `file_reader` turns the events into metadata and the files
//! of a directory into documents, and `interface` holds the browsing
//! session: the cursor, the keys that move it and the two panes that show it.
//! Reading the file system and driving the terminal are left to the program
//! that uses the library.

pub mod file_reader;
pub mod frontmatter;
pub mod interface;
pub mod yaml;
