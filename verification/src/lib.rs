//! A verified codec for the DNS wire message format: the bit-packed 12-byte
//! header, length-prefixed domain-name labels with backward compression
//! pointers, question records, resource (answer) records, and the fixed
//! 512-byte message buffer that holds them all.

pub mod errors;
pub mod header;
pub mod message;
pub mod name;
pub mod records;

pub use errors::DecodeError;
pub use errors::EncodeError;
pub use header::Header;
pub use header::OpCode;
pub use header::QueryResponseIndicator;
pub use header::ResponseCode;
pub use message::Message;
pub use name::Label;
pub use records::Answer;
pub use records::AnswerType;
pub use records::Question;
