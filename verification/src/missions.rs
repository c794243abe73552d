//! Mission definitions, laid out by hand, and what a flight computer does with them: one function
//! per way into the encoder, the decoder and the dispatcher.

pub mod aggregates;
pub mod arrays;
pub mod byte_order;
pub mod commands;
pub mod flight_shapes;
pub mod jpss;
pub mod numeric_edges;
pub mod parts;

pub use crate::missions::aggregates::round_trip_aggregates;
pub use crate::missions::arrays::round_trip_arrays;
pub use crate::missions::byte_order::round_trip_little_endian;
pub use crate::missions::commands::round_trip_command;
pub use crate::missions::flight_shapes::{
    decode_status_report, dispatch_flight_shapes, encode_beacon, encode_status_report,
};
pub use crate::missions::jpss::decode_jpss;
pub use crate::missions::numeric_edges::{decode_numeric_edges, encode_numeric_edges};
