//! Names bound to paths or command lines, and the text-mode tables that list
//! them.
//!
//! [`table`] draws tables with box-drawing borders. A table is a list of
//! rows; a row is a list of cells; a cell is a piece of text that occupies
//! one or more grid columns. Rendering computes a common width for every
//! grid column, draws one content line per row and a separator line above,
//! between and below the rows. Where two adjacent rows split the grid
//! differently, the separator between them shows the column boundaries of
//! both.
//!
//! [`store`] keeps the bindings and reads and writes the text they are kept
//! in. [`command`] turns a stored command line and the caller's arguments
//! into the words to run. [`listing`] makes the table of one section of a
//! listing. [`error`] is an error told in words. [`text`] holds what they
//! share.
//!
//! Nothing here reads a file, prints or starts a process: every function
//! takes plain values and gives plain values back.
pub mod command;
pub mod error;
pub mod listing;
pub mod store;
pub mod table;
pub mod text;
