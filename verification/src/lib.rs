//! Extraction of the leading header comments of a Java source file.
//!
//! The header of a file is the contiguous run, at the top, of `//` line
//! comments and `/* ... */` block comments, possibly separated by blank
//! lines and preceded by at most one `package ...;` statement. The scanner
//! walks the text once, character by character, and concatenates the text
//! of every header comment it finds, with the comment delimiters stripped.

pub mod laws;
pub mod scanner;

pub use scanner::extract_java_headers;
