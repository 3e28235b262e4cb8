//! Verified string, array and blog-account logic.

pub mod auth;
pub mod blog;
pub mod chop;
pub mod file_lines;
pub mod hex_dump;
pub mod increment;
pub mod join;
pub mod numfmt;
pub mod param_type_str;
pub mod param_type_string_1;
pub mod param_type_string_2;
pub mod occurrence;
pub mod return_type_str;
pub mod prompt;
pub mod reverse;
pub mod split_string_return_parts;
pub mod string_conversion;
pub mod support;
