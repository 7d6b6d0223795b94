//! A small HTTP/1.1 request-response engine that does no I/O of its own.
//!
//! The engine reads a request from the bytes of one read ([`request`]),
//! routes it ([`router`]), decides what the file service is to do and what
//! is answered once it has ([`files`]), and turns the response into bytes
//! ([`response`]). The handler of a connection ([`connection`]) ties these
//! together as a state machine: it is told what happened and says what is to
//! be done next, and the program around it owns the sockets, the threads,
//! the files and the compression.
//!
//! What holds of the handler as a whole is stated and proved in [`laws`];
//! [`message`] and [`text`] hold the frame of a message and the byte strings
//! that the rest is built on.

pub mod connection;
pub mod files;
pub mod laws;
pub mod message;
pub mod request;
pub mod response;
pub mod router;
pub mod statuscode;
pub mod text;
