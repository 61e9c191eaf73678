//! The indexer's scan protocol: framing, messages, connections and streams.
pub mod client;
pub mod error;
pub mod io_failure;
pub mod packet_codec;
pub mod proto;
pub mod scan;
pub mod span;
pub mod status;
pub mod wire;

pub use client::{Client, ConnectOptions};
pub use error::{AuthCode, Error, ErrorKind, ServerError};
pub use packet_codec::{CodecError, Frame, PacketCodec, ProtocolError};
pub use proto::{
    Consistency, DataEncoding, ParseError, Projection, Response, ScanEntry, ScanOptions,
};
pub use scan::ScanStream;
pub use span::{Filter, Inclusion, Scan};
pub use status::IndexStatus;
