//! Connections: their endpoints, their framed halves, and their tasks.

pub mod calls;
pub mod connect;
pub mod framed;
pub mod framed_read;
pub mod framed_write;
pub mod read_laws;
pub mod task;
pub mod write_laws;
