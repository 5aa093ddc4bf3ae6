//! Building blocks of a QUIC endpoint: variable-length integers, stream
//! identifiers, packet numbers, connection ids, long headers, ACK frames,
//! the packet-protection interfaces, and the decisions of the connection
//! driver.
pub mod buf;
pub mod client;
pub mod crypto;
pub mod driver;
pub mod frame;
pub mod packet;
pub mod range_set;
pub mod stream_id;
pub mod text;
pub mod varint;
