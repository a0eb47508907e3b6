//! Decompress a zlib stream and render it as a canonical hexdump.

pub mod dump;
pub mod error;
pub mod line;
pub mod sink;
pub mod source;

pub use dump::print_hexdump;
pub use error::{DumpError, MyError};
pub use line::{gen_info, is_printable};
pub use sink::WriteSink;
pub use source::{zlib_source, ReadSource, ZlibSource};
