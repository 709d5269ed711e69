//! A small, verified web-application core: a route table with
//! registration-order dispatch, a form decoder with a layered error
//! taxonomy (transport encoding before field semantics), and a
//! process-wide hit counter.
//!
//! Serving bytes on a socket, reading files and rendering templates are
//! collaborators outside this crate: responses carry the data those
//! collaborators need, and never the other way around.

pub mod bytes;
pub mod counter;
pub mod site;
pub mod form;
pub mod router;
pub mod utf8;
