//! Concatenate byte streams and optionally format them line by line:
//! line numbers, end-of-line markers, tab and non-printing notation,
//! and squeezing of repeated blank lines.

pub mod blksize;
pub mod config;
pub mod format;
pub mod laws;
pub mod line_number;
pub mod session;
pub mod writer;

pub use blksize::{io_blksize, IO_BUFSIZE};
pub use config::{get_input_type, Config, Flags, InputType, NumberMode};
pub use format::{
    write_body, write_end, write_line_nonprinting, write_line_plain, write_line_show_tab,
    OutState, MAX_LINE_COUNT,
};
pub use line_number::LineNumber;
pub use session::Session;
pub use writer::BufferedWriterSingleThread;
