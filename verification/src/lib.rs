//! Encoder and decoder for DNS wire-format messages (RFC 1035, with SRV from
//! RFC 2782 and the EDNS0 OPT pseudo-record from RFC 6891).
//!
//! The crate transforms between an opaque byte buffer and a typed in-memory
//! representation of a DNS message, and back. It performs no network I/O.
use vstd::prelude::*;

pub mod wire;

pub mod enums;
pub use crate::enums::Class;
pub use crate::enums::Opcode;
pub use crate::enums::ResponseCode;
pub use crate::enums::Type;

pub mod name;
pub use crate::name::Label;
pub use crate::name::Name;

pub mod rr;
pub use crate::rr::Ipv4;
pub use crate::rr::Ipv6;
pub use crate::rr::MxRecord;
pub use crate::rr::OptRecord;
pub use crate::rr::ResourceRecord;
pub use crate::rr::RRData;
pub use crate::rr::SoaRecord;
pub use crate::rr::SrvRecord;
pub use crate::rr::UnknownRecord;

pub mod question;
pub use crate::question::Question;

pub mod message;
pub mod types;
pub use crate::message::Header;
pub use crate::message::Message;

verus! {

/// Everything that can go wrong while decoding or encoding a message.
#[derive(Clone, Copy, Debug, PartialEq, Eq, Structural)]
pub enum Error {
    /// A read or write ran past the end of the buffer.
    IoError,
    /// A label failed the charset or length check.
    InvalidLabel,
    /// A label length byte used one of the reserved formats (high bits `01` or `10`).
    UnknownLabelFormat,
    /// A name exceeded 255 wire octets, or pointer chasing exceeded the hop budget.
    NameTooLong,
    /// An OPT record appeared outside the additional section.
    InvalidOpt,
    /// More than one OPT record appeared in a message.
    MultipleOpt,
    /// A typed accessor was applied to a record of a different kind.
    ParserStateError,
}

} // verus!
