//! Path templates with capture groups, and the correlation of the files of
//! several directories by the groups that their paths share.
//!
//! - `ada`: a template is compiled into a regular expression; the groups of a
//!   concrete path are found with it, and a path is written anew with other
//!   values in place of its groups.
//! - `splice`: the replacing of spans of a text, and what it keeps.
//! - `text`: strings as bytes, and slicing between characters.
//! - `matcher`: the calls into the `regex` crate.
//! - `options`: where the templates stand among the options of the merge tool.
//! - `entry`: a template with its directory and its place among the options.
//! - `align`: the files that the input templates match, and whether the input
//!   sources agree on them.
//! - `engine`: one run, from the options to the argument list of every merge.

pub mod ada;
pub mod align;
pub mod engine;
pub mod entry;
pub mod matcher;
pub mod options;
pub mod splice;
pub mod text;
