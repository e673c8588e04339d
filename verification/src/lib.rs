//! A read-only catalog of comic collections: scan results are normalised into
//! one in-memory index with stable identifiers, and page requests are resolved
//! to the place on disk that holds the bytes.

pub mod backend;
pub mod copy_manga;
pub mod dmzj;
pub mod eh;
pub mod group;
pub mod ident;
pub mod manga_list;
pub mod order;
pub mod request_resolver;
pub mod shaft;
pub mod text;
pub mod utils;
