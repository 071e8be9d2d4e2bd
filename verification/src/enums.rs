//! Bidirectional maps between numeric wire codes and symbolic values.
//!
//! Unknown numeric codes are preserved through `Unknown` or `Reserved`
//! variants rather than rejected, so that a decoded code always encodes back
//! to the same number.
use vstd::prelude::*;

verus! {

/// The QTYPE value according to RFC 1035.
///
/// All "EXPERIMENTAL" markers here are from the RFC.
#[derive(Debug, PartialEq, Eq, Clone, Copy, Structural)]
pub enum Type {
    /// a host address
    A,
    /// an authoritative name server
    NS,
    /// a mail forwarder (Obsolete - use MX)
    MF,
    /// the canonical name for an alias
    CNAME,
    /// marks the start of a zone of authority
    SOA,
    /// a mailbox domain name (EXPERIMENTAL)
    MB,
    /// a mail group member (EXPERIMENTAL)
    MG,
    /// a mail rename domain name (EXPERIMENTAL)
    MR,
    /// a null RR (EXPERIMENTAL)
    NULL,
    /// a well known service description
    WKS,
    /// a domain name pointer
    PTR,
    /// host information
    HINFO,
    /// mailbox or mail list information
    MINFO,
    /// mail exchange
    MX,
    /// text strings
    TXT,
    /// IPv6 host address (RFC 2782)
    AAAA,
    /// service record (RFC 2782)
    SRV,
    /// EDNS0 options (RFC 6891)
    OPT,
    /// A request for a transfer of an entire zone
    AXFR,
    /// A request for mailbox-related records (MB, MG or MR)
    MAILB,
    /// A request for mail agent RRs (Obsolete - see MX)
    MAILA,
    /// A request for all records
    All,
    /// Unknown type, preserved numerically
    Unknown(u16),
}

impl Type {
    /// The numeric wire code of this type.
    pub open spec fn spec_code(self) -> u16 {
        match self {
            Type::A => 1,
            Type::NS => 2,
            Type::MF => 4,
            Type::CNAME => 5,
            Type::SOA => 6,
            Type::MB => 7,
            Type::MG => 8,
            Type::MR => 9,
            Type::NULL => 10,
            Type::WKS => 11,
            Type::PTR => 12,
            Type::HINFO => 13,
            Type::MINFO => 14,
            Type::MX => 15,
            Type::TXT => 16,
            Type::AAAA => 28,
            Type::SRV => 33,
            Type::OPT => 41,
            Type::AXFR => 252,
            Type::MAILB => 253,
            Type::MAILA => 254,
            Type::All => 255,
            Type::Unknown(x) => x,
        }
    }

    /// The symbolic value of a numeric wire code.
    pub open spec fn spec_from(code: u16) -> Type {
        match code {
            1u16 => Type::A,
            2u16 => Type::NS,
            4u16 => Type::MF,
            5u16 => Type::CNAME,
            6u16 => Type::SOA,
            7u16 => Type::MB,
            8u16 => Type::MG,
            9u16 => Type::MR,
            10u16 => Type::NULL,
            11u16 => Type::WKS,
            12u16 => Type::PTR,
            13u16 => Type::HINFO,
            14u16 => Type::MINFO,
            15u16 => Type::MX,
            16u16 => Type::TXT,
            28u16 => Type::AAAA,
            33u16 => Type::SRV,
            41u16 => Type::OPT,
            252u16 => Type::AXFR,
            253u16 => Type::MAILB,
            254u16 => Type::MAILA,
            255u16 => Type::All,
            x => Type::Unknown(x),
        }
    }

    pub fn code(self) -> (c: u16)
        ensures
            c == self.spec_code(),
    {
        match self {
            Type::A => 1,
            Type::NS => 2,
            Type::MF => 4,
            Type::CNAME => 5,
            Type::SOA => 6,
            Type::MB => 7,
            Type::MG => 8,
            Type::MR => 9,
            Type::NULL => 10,
            Type::WKS => 11,
            Type::PTR => 12,
            Type::HINFO => 13,
            Type::MINFO => 14,
            Type::MX => 15,
            Type::TXT => 16,
            Type::AAAA => 28,
            Type::SRV => 33,
            Type::OPT => 41,
            Type::AXFR => 252,
            Type::MAILB => 253,
            Type::MAILA => 254,
            Type::All => 255,
            Type::Unknown(x) => x,
        }
    }

    pub fn from_code(code: u16) -> (t: Type)
        ensures
            t == Type::spec_from(code),
    {
        match code {
            1 => Type::A,
            2 => Type::NS,
            4 => Type::MF,
            5 => Type::CNAME,
            6 => Type::SOA,
            7 => Type::MB,
            8 => Type::MG,
            9 => Type::MR,
            10 => Type::NULL,
            11 => Type::WKS,
            12 => Type::PTR,
            13 => Type::HINFO,
            14 => Type::MINFO,
            15 => Type::MX,
            16 => Type::TXT,
            28 => Type::AAAA,
            33 => Type::SRV,
            41 => Type::OPT,
            252 => Type::AXFR,
            253 => Type::MAILB,
            254 => Type::MAILA,
            255 => Type::All,
            x => Type::Unknown(x),
        }
    }
}

/// Every 16-bit code maps to a type whose code is the number it came from.
pub proof fn lemma_type_code_roundtrip(v: u16)
    ensures
        Type::spec_from(v).spec_code() == v,
{
}

/// The QCLASS value according to RFC 1035.
#[derive(Debug, PartialEq, Eq, Clone, Copy, Structural)]
pub enum Class {
    /// the Internet
    IN,
    /// the CSNET class (Obsolete - used only for examples in some obsolete
    /// RFCs)
    CS,
    /// the CHAOS class
    CH,
    /// Hesiod [Dyer 87]
    HS,
    /// Any class
    Any,
    /// Unknown class, preserved numerically
    Unknown(u16),
}

impl Class {
    /// The numeric wire code of this class.
    pub open spec fn spec_code(self) -> u16 {
        match self {
            Class::IN => 1,
            Class::CS => 2,
            Class::CH => 3,
            Class::HS => 4,
            Class::Any => 255,
            Class::Unknown(x) => x,
        }
    }

    /// The symbolic value of a numeric wire code.
    pub open spec fn spec_from(code: u16) -> Class {
        match code {
            1u16 => Class::IN,
            2u16 => Class::CS,
            3u16 => Class::CH,
            4u16 => Class::HS,
            255u16 => Class::Any,
            x => Class::Unknown(x),
        }
    }

    pub fn code(self) -> (c: u16)
        ensures
            c == self.spec_code(),
    {
        match self {
            Class::IN => 1,
            Class::CS => 2,
            Class::CH => 3,
            Class::HS => 4,
            Class::Any => 255,
            Class::Unknown(x) => x,
        }
    }

    pub fn from_code(code: u16) -> (c: Class)
        ensures
            c == Class::spec_from(code),
    {
        match code {
            1 => Class::IN,
            2 => Class::CS,
            3 => Class::CH,
            4 => Class::HS,
            255 => Class::Any,
            x => Class::Unknown(x),
        }
    }
}

/// Every 16-bit code maps to a class whose code is the number it came from.
pub proof fn lemma_class_code_roundtrip(v: u16)
    ensures
        Class::spec_from(v).spec_code() == v,
{
}

/// The OPCODE value according to RFC 1035.
#[derive(Debug, PartialEq, Eq, Clone, Copy, Structural)]
pub enum Opcode {
    StandardQuery,
    InverseQuery,
    ServerStatusRequest,
    Reserved(u16),
}

impl Opcode {
    /// The numeric wire code of this opcode.
    pub open spec fn spec_code(self) -> u16 {
        match self {
            Opcode::StandardQuery => 0,
            Opcode::InverseQuery => 1,
            Opcode::ServerStatusRequest => 2,
            Opcode::Reserved(x) => x,
        }
    }

    /// The symbolic value of a numeric wire code.
    pub open spec fn spec_from(code: u16) -> Opcode {
        match code {
            0u16 => Opcode::StandardQuery,
            1u16 => Opcode::InverseQuery,
            2u16 => Opcode::ServerStatusRequest,
            x => Opcode::Reserved(x),
        }
    }

    pub fn code(self) -> (c: u16)
        ensures
            c == self.spec_code(),
    {
        match self {
            Opcode::StandardQuery => 0,
            Opcode::InverseQuery => 1,
            Opcode::ServerStatusRequest => 2,
            Opcode::Reserved(x) => x,
        }
    }

    pub fn from_code(code: u16) -> (o: Opcode)
        ensures
            o == Opcode::spec_from(code),
    {
        match code {
            0 => Opcode::StandardQuery,
            1 => Opcode::InverseQuery,
            2 => Opcode::ServerStatusRequest,
            x => Opcode::Reserved(x),
        }
    }
}

/// Every 16-bit code maps to an opcode whose code is the number it came from.
pub proof fn lemma_opcode_code_roundtrip(v: u16)
    ensures
        Opcode::spec_from(v).spec_code() == v,
{
}

/// The RCODE value according to RFC 1035.
///
/// The 4-bit header field only carries 0 through 15; larger values can still
/// be represented (they arise from the EDNS extended rcode) and stay
/// `Reserved`.
#[derive(Debug, PartialEq, Eq, Clone, Copy, Structural)]
pub enum ResponseCode {
    NoError,
    FormErr,
    ServFail,
    NxDomain,
    NotImp,
    Refused,
    YxDomain,
    XRRSet,
    NotAuth,
    NotZone,
    Reserved(u16),
}

impl ResponseCode {
    /// The numeric wire code of this response code.
    pub open spec fn spec_code(self) -> u16 {
        match self {
            ResponseCode::NoError => 0,
            ResponseCode::FormErr => 1,
            ResponseCode::ServFail => 2,
            ResponseCode::NxDomain => 3,
            ResponseCode::NotImp => 4,
            ResponseCode::Refused => 5,
            ResponseCode::YxDomain => 6,
            ResponseCode::XRRSet => 7,
            ResponseCode::NotAuth => 8,
            ResponseCode::NotZone => 9,
            ResponseCode::Reserved(x) => x,
        }
    }

    /// The symbolic value of a numeric wire code.
    pub open spec fn spec_from(code: u16) -> ResponseCode {
        match code {
            0u16 => ResponseCode::NoError,
            1u16 => ResponseCode::FormErr,
            2u16 => ResponseCode::ServFail,
            3u16 => ResponseCode::NxDomain,
            4u16 => ResponseCode::NotImp,
            5u16 => ResponseCode::Refused,
            6u16 => ResponseCode::YxDomain,
            7u16 => ResponseCode::XRRSet,
            8u16 => ResponseCode::NotAuth,
            9u16 => ResponseCode::NotZone,
            x => ResponseCode::Reserved(x),
        }
    }

    pub fn code(self) -> (c: u16)
        ensures
            c == self.spec_code(),
    {
        match self {
            ResponseCode::NoError => 0,
            ResponseCode::FormErr => 1,
            ResponseCode::ServFail => 2,
            ResponseCode::NxDomain => 3,
            ResponseCode::NotImp => 4,
            ResponseCode::Refused => 5,
            ResponseCode::YxDomain => 6,
            ResponseCode::XRRSet => 7,
            ResponseCode::NotAuth => 8,
            ResponseCode::NotZone => 9,
            ResponseCode::Reserved(x) => x,
        }
    }

    pub fn from_code(code: u16) -> (r: ResponseCode)
        ensures
            r == ResponseCode::spec_from(code),
    {
        match code {
            0 => ResponseCode::NoError,
            1 => ResponseCode::FormErr,
            2 => ResponseCode::ServFail,
            3 => ResponseCode::NxDomain,
            4 => ResponseCode::NotImp,
            5 => ResponseCode::Refused,
            6 => ResponseCode::YxDomain,
            7 => ResponseCode::XRRSet,
            8 => ResponseCode::NotAuth,
            9 => ResponseCode::NotZone,
            x => ResponseCode::Reserved(x),
        }
    }
}

/// Every 16-bit code maps to a response code whose code is the number it came
/// from.
pub proof fn lemma_response_code_roundtrip(v: u16)
    ensures
        ResponseCode::spec_from(v).spec_code() == v,
{
}


/// The printable form of a type, as its symbolic name's ASCII bytes; an
/// unknown code prints as the word Unknown around its decimal value.
pub open spec fn type_text(t: Type) -> Seq<u8> {
    match t {
        Type::A => seq![65u8],
        Type::NS => seq![78u8, 83u8],
        Type::MF => seq![77u8, 70u8],
        Type::CNAME => seq![67u8, 78u8, 65u8, 77u8, 69u8],
        Type::SOA => seq![83u8, 79u8, 65u8],
        Type::MB => seq![77u8, 66u8],
        Type::MG => seq![77u8, 71u8],
        Type::MR => seq![77u8, 82u8],
        Type::NULL => seq![78u8, 85u8, 76u8, 76u8],
        Type::WKS => seq![87u8, 75u8, 83u8],
        Type::PTR => seq![80u8, 84u8, 82u8],
        Type::HINFO => seq![72u8, 73u8, 78u8, 70u8, 79u8],
        Type::MINFO => seq![77u8, 73u8, 78u8, 70u8, 79u8],
        Type::MX => seq![77u8, 88u8],
        Type::TXT => seq![84u8, 88u8, 84u8],
        Type::AAAA => seq![65u8, 65u8, 65u8, 65u8],
        Type::SRV => seq![83u8, 82u8, 86u8],
        Type::OPT => seq![79u8, 80u8, 84u8],
        Type::AXFR => seq![65u8, 88u8, 70u8, 82u8],
        Type::MAILB => seq![77u8, 65u8, 73u8, 76u8, 66u8],
        Type::MAILA => seq![77u8, 65u8, 73u8, 76u8, 65u8],
        Type::All => seq![65u8, 108u8, 108u8],
        Type::Unknown(x) => seq![85u8, 110u8, 107u8, 110u8, 111u8, 119u8, 110u8, 40u8] + crate::wire::dec_bytes(x as nat) + seq![41u8],
    }
}

/// The printable form of a class, in the same shape as a type's.
pub open spec fn class_text(c: Class) -> Seq<u8> {
    match c {
        Class::IN => seq![73u8, 78u8],
        Class::CS => seq![67u8, 83u8],
        Class::CH => seq![67u8, 72u8],
        Class::HS => seq![72u8, 83u8],
        Class::Any => seq![65u8, 110u8, 121u8],
        Class::Unknown(x) => seq![85u8, 110u8, 107u8, 110u8, 111u8, 119u8, 110u8, 40u8] + crate::wire::dec_bytes(x as nat) + seq![41u8],
    }
}

/// Appends the printable form of a type.
pub fn push_type_text(t: &Type, out: &mut Vec<u8>)
    ensures
        final(out)@ == old(out)@ + type_text(*t),
{
    match t {
        Type::A => {
            out.push(65u8);
        },
        Type::NS => {
            out.push(78u8);
            out.push(83u8);
        },
        Type::MF => {
            out.push(77u8);
            out.push(70u8);
        },
        Type::CNAME => {
            out.push(67u8);
            out.push(78u8);
            out.push(65u8);
            out.push(77u8);
            out.push(69u8);
        },
        Type::SOA => {
            out.push(83u8);
            out.push(79u8);
            out.push(65u8);
        },
        Type::MB => {
            out.push(77u8);
            out.push(66u8);
        },
        Type::MG => {
            out.push(77u8);
            out.push(71u8);
        },
        Type::MR => {
            out.push(77u8);
            out.push(82u8);
        },
        Type::NULL => {
            out.push(78u8);
            out.push(85u8);
            out.push(76u8);
            out.push(76u8);
        },
        Type::WKS => {
            out.push(87u8);
            out.push(75u8);
            out.push(83u8);
        },
        Type::PTR => {
            out.push(80u8);
            out.push(84u8);
            out.push(82u8);
        },
        Type::HINFO => {
            out.push(72u8);
            out.push(73u8);
            out.push(78u8);
            out.push(70u8);
            out.push(79u8);
        },
        Type::MINFO => {
            out.push(77u8);
            out.push(73u8);
            out.push(78u8);
            out.push(70u8);
            out.push(79u8);
        },
        Type::MX => {
            out.push(77u8);
            out.push(88u8);
        },
        Type::TXT => {
            out.push(84u8);
            out.push(88u8);
            out.push(84u8);
        },
        Type::AAAA => {
            out.push(65u8);
            out.push(65u8);
            out.push(65u8);
            out.push(65u8);
        },
        Type::SRV => {
            out.push(83u8);
            out.push(82u8);
            out.push(86u8);
        },
        Type::OPT => {
            out.push(79u8);
            out.push(80u8);
            out.push(84u8);
        },
        Type::AXFR => {
            out.push(65u8);
            out.push(88u8);
            out.push(70u8);
            out.push(82u8);
        },
        Type::MAILB => {
            out.push(77u8);
            out.push(65u8);
            out.push(73u8);
            out.push(76u8);
            out.push(66u8);
        },
        Type::MAILA => {
            out.push(77u8);
            out.push(65u8);
            out.push(73u8);
            out.push(76u8);
            out.push(65u8);
        },
        Type::All => {
            out.push(65u8);
            out.push(108u8);
            out.push(108u8);
        },
        Type::Unknown(x) => {
            out.push(85u8);
            out.push(110u8);
            out.push(107u8);
            out.push(110u8);
            out.push(111u8);
            out.push(119u8);
            out.push(110u8);
            out.push(40u8);
            crate::wire::push_dec(out, *x);
            out.push(41u8);
        },
    }
    proof {
        assert(out@ =~= old(out)@ + type_text(*t));
    }
}

/// Appends the printable form of a class.
pub fn push_class_text(c: &Class, out: &mut Vec<u8>)
    ensures
        final(out)@ == old(out)@ + class_text(*c),
{
    match c {
        Class::IN => {
            out.push(73u8);
            out.push(78u8);
        },
        Class::CS => {
            out.push(67u8);
            out.push(83u8);
        },
        Class::CH => {
            out.push(67u8);
            out.push(72u8);
        },
        Class::HS => {
            out.push(72u8);
            out.push(83u8);
        },
        Class::Any => {
            out.push(65u8);
            out.push(110u8);
            out.push(121u8);
        },
        Class::Unknown(x) => {
            out.push(85u8);
            out.push(110u8);
            out.push(107u8);
            out.push(110u8);
            out.push(111u8);
            out.push(119u8);
            out.push(110u8);
            out.push(40u8);
            crate::wire::push_dec(out, *x);
            out.push(41u8);
        },
    }
    proof {
        assert(out@ =~= old(out)@ + class_text(*c));
    }
}

/// Printable forms are always ASCII.
pub proof fn lemma_text_ascii(t: Type, c: Class)
    ensures
        forall|i: int| 0 <= i < type_text(t).len() ==> #[trigger] type_text(t)[i] < 128,
        forall|i: int| 0 <= i < class_text(c).len() ==> #[trigger] class_text(c)[i] < 128,
{
    if let Type::Unknown(x) = t {
        crate::wire::lemma_dec_bytes_ascii(x as nat);
    }
    if let Class::Unknown(x) = c {
        crate::wire::lemma_dec_bytes_ascii(x as nat);
    }
}

} // verus!
