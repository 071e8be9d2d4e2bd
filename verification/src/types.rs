//! Compile-time tags for record kinds.
//!
//! Each tag names one concrete payload type and carries the projection from
//! the payload union and the injection back into it, so a caller can ask a
//! record "are you an A?" and obtain the address without matching the whole
//! union. The union itself stays the canonical interface.
use vstd::prelude::*;

use crate::enums::Class;
use crate::Error;
use crate::enums::Type;
use crate::name::Name;
use crate::question::Question;
use crate::question::QuestionV;
use crate::rr::Ipv4;
use crate::rr::Ipv6;
use crate::rr::MxRecord;
use crate::rr::RDataV;
use crate::rr::RRData;
use crate::rr::RecordV;
use crate::rr::ResourceRecord;
use crate::rr::SoaRecord;
use crate::rr::SrvRecord;
use crate::rr::UnknownRecord;

pub use crate::enums::Class::CH;
pub use crate::enums::Class::CS;
pub use crate::enums::Class::HS;
pub use crate::enums::Class::IN;

verus! {

/// A record-kind tag: the type code it answers to, the projection from the
/// payload union, and the injection back into it.
pub trait RRType {
    /// The concrete payload this tag selects.
    type D;

    /// The symbolic type the tag stands for.
    spec fn spec_type() -> Type;

    /// Whether a payload is of this kind.
    spec fn spec_matches(d: RDataV) -> bool;

    /// The union value a payload of this kind injects to.
    spec fn spec_unmap(d: &Self::D) -> RDataV;

    /// The symbolic type the tag stands for.
    fn to_type() -> (t: Type)
        ensures
            t == Self::spec_type(),
    ;

    /// Projects the payload out of the union when the kind matches.
    fn map(d: &RRData) -> (r: Option<&Self::D>)
        ensures
            r is Some <==> Self::spec_matches(d@),
            r matches Some(p) ==> d@ == Self::spec_unmap(p),
    ;

    /// Injects a payload into the union.
    fn unmap(d: Self::D) -> (r: RRData)
        ensures
            r@ == Self::spec_unmap(&d),
    ;
}

/// The host-address tag.
pub struct A;

impl RRType for A {
    type D = Ipv4;

    open spec fn spec_type() -> Type {
        Type::A
    }

    open spec fn spec_matches(d: RDataV) -> bool {
        d is A
    }

    open spec fn spec_unmap(d: &Ipv4) -> RDataV {
        RDataV::A(*d)
    }

    fn to_type() -> Type {
        Type::A
    }

    fn map(d: &RRData) -> Option<&Ipv4> {
        match d {
            RRData::A(a) => Some(a),
            _ => None,
        }
    }

    fn unmap(d: Ipv4) -> RRData {
        RRData::A(d)
    }
}

/// The IPv6 host-address tag.
pub struct AAAA;

impl RRType for AAAA {
    type D = Ipv6;

    open spec fn spec_type() -> Type {
        Type::AAAA
    }

    open spec fn spec_matches(d: RDataV) -> bool {
        d is AAAA
    }

    open spec fn spec_unmap(d: &Ipv6) -> RDataV {
        RDataV::AAAA(*d)
    }

    fn to_type() -> Type {
        Type::AAAA
    }

    fn map(d: &RRData) -> Option<&Ipv6> {
        match d {
            RRData::AAAA(a) => Some(a),
            _ => None,
        }
    }

    fn unmap(d: Ipv6) -> RRData {
        RRData::AAAA(d)
    }
}

/// The name-server tag.
pub struct NS;

impl RRType for NS {
    type D = Name;

    open spec fn spec_type() -> Type {
        Type::NS
    }

    open spec fn spec_matches(d: RDataV) -> bool {
        d is NS
    }

    open spec fn spec_unmap(d: &Name) -> RDataV {
        RDataV::NS(d@)
    }

    fn to_type() -> Type {
        Type::NS
    }

    fn map(d: &RRData) -> Option<&Name> {
        match d {
            RRData::NS(n) => Some(n),
            _ => None,
        }
    }

    fn unmap(d: Name) -> RRData {
        RRData::NS(d)
    }
}

/// The canonical-name tag.
pub struct CNAME;

impl RRType for CNAME {
    type D = Name;

    open spec fn spec_type() -> Type {
        Type::CNAME
    }

    open spec fn spec_matches(d: RDataV) -> bool {
        d is CNAME
    }

    open spec fn spec_unmap(d: &Name) -> RDataV {
        RDataV::CNAME(d@)
    }

    fn to_type() -> Type {
        Type::CNAME
    }

    fn map(d: &RRData) -> Option<&Name> {
        match d {
            RRData::CNAME(n) => Some(n),
            _ => None,
        }
    }

    fn unmap(d: Name) -> RRData {
        RRData::CNAME(d)
    }
}

/// The domain-pointer tag.
pub struct PTR;

impl RRType for PTR {
    type D = Name;

    open spec fn spec_type() -> Type {
        Type::PTR
    }

    open spec fn spec_matches(d: RDataV) -> bool {
        d is PTR
    }

    open spec fn spec_unmap(d: &Name) -> RDataV {
        RDataV::PTR(d@)
    }

    fn to_type() -> Type {
        Type::PTR
    }

    fn map(d: &RRData) -> Option<&Name> {
        match d {
            RRData::PTR(n) => Some(n),
            _ => None,
        }
    }

    fn unmap(d: Name) -> RRData {
        RRData::PTR(d)
    }
}

/// The start-of-authority tag.
pub struct SOA;

impl RRType for SOA {
    type D = SoaRecord;

    open spec fn spec_type() -> Type {
        Type::SOA
    }

    open spec fn spec_matches(d: RDataV) -> bool {
        d is SOA
    }

    open spec fn spec_unmap(d: &SoaRecord) -> RDataV {
        RDataV::SOA(d@)
    }

    fn to_type() -> Type {
        Type::SOA
    }

    fn map(d: &RRData) -> Option<&SoaRecord> {
        match d {
            RRData::SOA(s) => Some(s),
            _ => None,
        }
    }

    fn unmap(d: SoaRecord) -> RRData {
        RRData::SOA(d)
    }
}

/// The service-locator tag.
pub struct SRV;

impl RRType for SRV {
    type D = SrvRecord;

    open spec fn spec_type() -> Type {
        Type::SRV
    }

    open spec fn spec_matches(d: RDataV) -> bool {
        d is SRV
    }

    open spec fn spec_unmap(d: &SrvRecord) -> RDataV {
        RDataV::SRV(d@)
    }

    fn to_type() -> Type {
        Type::SRV
    }

    fn map(d: &RRData) -> Option<&SrvRecord> {
        match d {
            RRData::SRV(s) => Some(s),
            _ => None,
        }
    }

    fn unmap(d: SrvRecord) -> RRData {
        RRData::SRV(d)
    }
}

/// The mail-exchange tag.
pub struct MX;

impl RRType for MX {
    type D = MxRecord;

    open spec fn spec_type() -> Type {
        Type::MX
    }

    open spec fn spec_matches(d: RDataV) -> bool {
        d is MX
    }

    open spec fn spec_unmap(d: &MxRecord) -> RDataV {
        RDataV::MX(d@)
    }

    fn to_type() -> Type {
        Type::MX
    }

    fn map(d: &RRData) -> Option<&MxRecord> {
        match d {
            RRData::MX(m) => Some(m),
            _ => None,
        }
    }

    fn unmap(d: MxRecord) -> RRData {
        RRData::MX(d)
    }
}

/// The text tag.
pub struct TXT;

impl RRType for TXT {
    type D = Vec<u8>;

    open spec fn spec_type() -> Type {
        Type::TXT
    }

    open spec fn spec_matches(d: RDataV) -> bool {
        d is TXT
    }

    open spec fn spec_unmap(d: &Vec<u8>) -> RDataV {
        RDataV::TXT(d@)
    }

    fn to_type() -> Type {
        Type::TXT
    }

    fn map(d: &RRData) -> Option<&Vec<u8>> {
        match d {
            RRData::TXT(b) => Some(b),
            _ => None,
        }
    }

    fn unmap(d: Vec<u8>) -> RRData {
        RRData::TXT(d)
    }
}

/// The raw-payload tag for type codes without a decoder. It has no single
/// type code, so it offers only the projection and the injection.
pub struct Unknown;

impl Unknown {
    /// Projects the raw payload out of the union when the kind matches.
    pub fn map(d: &RRData) -> (r: Option<&UnknownRecord>)
        ensures
            r is Some <==> d@ is Unknown,
            r matches Some(p) ==> d@ == (RDataV::Unknown { typecode: p.typecode, data: p.data@ }),
    {
        match d {
            RRData::Unknown(u) => Some(u),
            _ => None,
        }
    }

    /// Injects a raw payload into the union.
    pub fn unmap(d: UnknownRecord) -> (r: RRData)
        ensures
            r@ == (RDataV::Unknown { typecode: d.typecode, data: d.data@ }),
    {
        RRData::Unknown(d)
    }
}

/// Writes the body of a payload after checking it against the tag; a
/// mismatch between tag and payload is the internal consistency failure
/// `ParserStateError`.
pub fn serialize_data<T: RRType>(d: &RRData, out: &mut Vec<u8>) -> (r: Result<(), Error>)
    requires
        crate::rr::valid_rdata(d@),
    ensures
        match r {
            Ok(u) => T::spec_matches(d@) && final(out)@ == old(out)@ + crate::rr::rdata_body(d@),
            Err(e) => !T::spec_matches(d@) && e == Error::ParserStateError && final(out)@ == old(
                out,
            )@,
        },
{
    match T::map(d) {
        Option::Some(_) => crate::rr::serialize_rdata(d, out),
        Option::None => Err(Error::ParserStateError),
    }
}

impl ResourceRecord {
    /// Whether the payload is of the tagged kind.
    pub fn is<T: RRType>(&self) -> (r: bool)
        ensures
            r == T::spec_matches(self@.data),
    {
        T::map(&self.data).is_some()
    }

    /// The payload, when it is of the tagged kind.
    pub fn get<T: RRType>(&self) -> (r: Option<&T::D>)
        ensures
            r is Some <==> T::spec_matches(self@.data),
            r matches Some(p) ==> self@.data == T::spec_unmap(p),
    {
        T::map(&self.data)
    }

    /// A record of the tagged kind with the sixty-second default TTL that
    /// suits callers who ignore it.
    pub fn new<T: RRType>(n: Name, c: Class, d: T::D) -> (r: ResourceRecord)
        ensures
            r@ == (RecordV {
                name: n@,
                multicast_unique: false,
                class: c,
                ttl: 60,
                data: T::spec_unmap(&d),
            }),
    {
        ResourceRecord::new_ttl::<T>(n, 60, c, d)
    }

    /// A record of the tagged kind with an explicit TTL.
    pub fn new_ttl<T: RRType>(n: Name, ttl: u32, c: Class, d: T::D) -> (r: ResourceRecord)
        ensures
            r@ == (RecordV {
                name: n@,
                multicast_unique: false,
                class: c,
                ttl,
                data: T::spec_unmap(&d),
            }),
    {
        ResourceRecord { name: n, multicast_unique: false, class: c, ttl, data: T::unmap(d) }
    }
}

impl Question {
    /// A question asking for the tagged kind.
    pub fn new<T: RRType>(n: Name, c: Class) -> (r: Question)
        ensures
            r@ == (QuestionV {
                name: n@,
                prefer_unicast: false,
                qtype: T::spec_type(),
                qclass: c,
            }),
    {
        Question { qname: n, prefer_unicast: false, qtype: T::to_type(), qclass: c }
    }

    /// Whether the question asks for the tagged kind.
    pub fn is<T: RRType>(&self) -> (r: bool)
        ensures
            r == (self@.qtype == T::spec_type()),
    {
        self.qtype == T::to_type()
    }
}

} // verus!
