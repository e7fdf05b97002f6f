//! Styled terminal text.
//!
//! A line of program output, decorated with SGR escape sequences, is parsed
//! into a [`TLine`]: an ordered list of runs ([`TString`]), each holding the
//! verbatim escape text that styles it and the characters it shows. A line can
//! be drawn again, drawn within a number of display columns, and its runs can
//! be split at a column.
//!
//! Only the narrow grammar that colorized compiler output uses is understood:
//! a style is reset before another one begins, and a composite style arrives
//! as consecutive sequences in front of the text.

pub mod builder;
pub mod columns;
pub mod laws;
pub mod parser;
pub mod style;
pub mod text;
pub mod tline;
pub mod tstring;

pub use crate::builder::TLineBuilder;
pub use crate::style::{CSI_BOLD, CSI_BOLD_BLUE, CSI_BOLD_RED, CSI_BOLD_YELLOW, CSI_RESET};
pub use crate::tline::TLine;
pub use crate::tstring::TString;
