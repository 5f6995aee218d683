//! An interpreter for a stack-based array language.
//!
//! A text is read as tokens (`token`), the tokens as a syntax tree (`parse`,
//! `ast`, `syntax`) whose words carry the spans of their tokens (`placing`),
//! the tree is checked for its names (`names`) and compiled to an assembly
//! (`compile`), and a machine runs the assembly (`machine`) as `semantics`
//! says, on an operand stack and a call stack (`vm`), timing its
//! instructions where it is asked to (`timing`). The values are arrays of
//! numbers, bytes and characters (`value`, `ops`, `pairing`, `number`,
//! `show`); arithmetic on numbers is the work of a kernel (`kernel`,
//! `kernel_ops`). A program reaches its host through effect operations
//! (`io`, `picture`, `imports`) and a backend (`backend`). The decisions of
//! the command-line driver are here too: what a command does (`driver`),
//! which file is worked on and where the settings of the formatter are
//! looked for (`files`), what the watcher does when files change (`watch`),
//! whether a newer version is announced (`update`), how a text is formatted
//! (`format`), and how an error is told (`report`, `error`).

pub mod ast;
pub mod backend;
pub mod compile;
pub mod driver;
pub mod error;
pub mod files;
pub mod format;
pub mod function;
pub mod imports;
pub mod io;
pub mod kernel;
pub mod kernel_ops;
pub mod lex;
pub mod machine;
pub mod names;
pub mod number;
pub mod ops;
pub mod pairing;
pub mod parse;
pub mod placing;
pub mod picture;
pub mod primitive;
pub mod report;
pub mod semantics;
pub mod show;
pub mod syntax;
pub mod text;
pub mod timing;
pub mod token;
pub mod update;
pub mod value;
pub mod vm;
pub mod watch;
