//! Inspection of HTTP/1.1 requests: the header lines of a request, an
//! optional body of a declared length, the text shown for it on a console,
//! and the fixed answer sent back.

pub mod text;
pub mod reader;
pub mod report;
pub mod laws;
