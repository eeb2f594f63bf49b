//! Line and byte bounded formatting of text streams: the rules behind a
//! concatenating printer and a prefix printer, kept apart from the reading
//! and writing that a program does around them.

pub mod batch;
pub mod catr;
pub mod count;
pub mod driver;
pub mod headr;
pub mod numbering;
pub mod source;
