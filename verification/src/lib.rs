//! Page resolution and merge planning for a tool that puts one page of a
//! reference document in front of each of many target documents.
//!
//! A spreadsheet says which page belongs to which file name. The names in it
//! are entered by hand: some carry an extension, some a directory, and the
//! files on disk may be duplicates such as `name (1).pdf`. The library builds
//! the mapping table from the rows of the spreadsheet ([`builder`],
//! [`table`]), reduces file names to what identifies them ([`names`]),
//! finds the page of a target file ([`matcher`]) and leads the caller through
//! the merge of one target, step by step ([`merge`], [`tool`]). What the
//! steps do to the files is stated and proved over a model in [`effects`].
//!
//! The library reads no file and starts no process: its caller does, and
//! hands over plain values.

pub mod builder;
pub mod decimal;
pub mod effects;
pub mod matcher;
pub mod merge;
pub mod names;
pub mod table;
pub mod text;
pub mod tool;
