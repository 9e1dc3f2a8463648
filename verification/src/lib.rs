//! A small, verified HTTP/1.1 message protocol engine.
//!
//! The crate covers the purely computational heart of a toy HTTP server:
//! a URI/request-line tokenizer written as an explicit finite state
//! machine, the request/response message grammar together with its
//! serialization, a kind-keyed header table, and a route table with
//! single and recursive binding. All filesystem and network effects are
//! left to the surrounding application; the engine only decides what
//! should happen and proves that those decisions follow the documented
//! rules.

pub mod header;
pub mod laws;
pub mod method;
pub mod paths;
pub mod protocol;
pub mod request;
pub mod response;
pub mod route;
pub mod router;
pub mod routes;
pub mod status;
pub mod text;
pub mod tokenizer;
pub mod uri;
