//! Verified core of a terminal viewer for R data.
//!
//! The viewer shows a data frame, matrix, list or vector as a table: a
//! header line, the column titles and types, an index column with R's
//! indexing syntax for each row, and as many columns as fit the screen.
//! This crate holds the viewer's state and logic: cursor and scroll
//! movement, key handling, the choice of columns on screen, the column
//! schema of nested objects, the formatting of row labels and the ANSI
//! text of a drawn frame.
pub mod app;
pub mod col_fit;
pub mod col_layout;
pub mod format;
pub mod help;
pub mod index_col;
pub mod movement;
pub mod print;
pub mod r_types;
pub mod schema;
pub mod term;
pub mod text;
pub mod update;
pub mod viewer;
pub mod yank;
