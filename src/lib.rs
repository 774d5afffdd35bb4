//! A command-line client for a local text-generation service: the logic that
//! chooses files of the working directory, renders them into a context packet,
//! composes the request, and consumes the streamed reply.

pub mod text;
pub mod scan;
pub mod packet;
pub mod request;
pub mod lines;
pub mod stream;
pub mod report;
