//! An in-memory, single-session Unix-like shell: a hierarchical filesystem of
//! directories and files, a current working directory, and an interpreter for
//! a fixed set of shell builtins (`help`, `pwd`, `ls`, `cd`, `mkdir`, `touch`,
//! `cat`, `echo` with redirects, `clear`).
pub mod model;
pub mod lemmas;
pub mod ext;
pub mod text;
pub mod fs;
pub mod paths;
pub mod tokenizer;
pub mod dispatch;
pub mod laws;
