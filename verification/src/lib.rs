//! HTTP headers and byte ranges for range tasks.
//!
//! The library reads which bytes a request asks for, decides whether the request makes a
//! compact range task, checks that a response transfers the requested bytes, and
//! converts headers between the forms in which they come.

pub mod compact;
pub mod convert;
pub mod error;
pub mod fields;
pub mod header_laws;
pub mod header_map;
pub mod laws;
pub mod range;
pub mod range_laws;
pub mod response;
pub mod response_laws;
pub mod status;
pub mod task_laws;
pub mod text;

pub use crate::compact::{
    get_compact_range, get_task_content_length, CompactRange, DRAGONFLY_CONTENT_LENGTH_HEADER,
    DRAGONFLY_PIECE_OFFSET_HEADER,
};
pub use crate::convert::{
    hashmap_to_headermap, header_vec_to_hashmap, header_vec_to_headermap, headermap_to_hashmap,
};
pub use crate::error::{BackendError, Error};
pub use crate::fields::find_header;
pub use crate::range::{get_range, is_exact_range, parse_range_header, Range};
pub use crate::response::validate_ranged_response;
pub use crate::status::StatusCode;
