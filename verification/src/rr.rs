//! Resource records: the tagged union of per-type payloads, the per-type
//! codec dispatched on the numeric type code, and the record readers for the
//! normal and the OPT-aware additional path.
use vstd::prelude::*;

use crate::enums::Class;
use crate::enums::Type;
use crate::name::name_bytes;
use crate::name::spec_parse_name;
use crate::name::valid_name;
use crate::name::Name;
use crate::wire::be16_bytes;
use crate::wire::be16_val;
use crate::wire::be32_bytes;
use crate::wire::be32_val;
use crate::wire::push_u16;
use crate::wire::push_u32;
use crate::wire::push_u8;
use crate::wire::read_u16;
use crate::wire::read_u32;
use crate::wire::read_u8;
use crate::Error;
use vstd::slice::slice_subrange;
use vstd::slice::slice_to_vec;

verus! {

/// An IPv4 address as its four octets.
#[derive(Clone, Copy, Debug, PartialEq, Eq, Structural)]
pub struct Ipv4 {
    pub o0: u8,
    pub o1: u8,
    pub o2: u8,
    pub o3: u8,
}

impl Ipv4 {
    pub fn new(o0: u8, o1: u8, o2: u8, o3: u8) -> (r: Ipv4)
        ensures
            r == (Ipv4 { o0, o1, o2, o3 }),
    {
        Ipv4 { o0, o1, o2, o3 }
    }
}

/// An IPv6 address as its eight 16-bit segments.
#[derive(Clone, Copy, Debug, PartialEq, Eq, Structural)]
pub struct Ipv6 {
    pub s0: u16,
    pub s1: u16,
    pub s2: u16,
    pub s3: u16,
    pub s4: u16,
    pub s5: u16,
    pub s6: u16,
    pub s7: u16,
}

impl Ipv6 {
    pub fn new(s0: u16, s1: u16, s2: u16, s3: u16, s4: u16, s5: u16, s6: u16, s7: u16) -> (r:
        Ipv6)
        ensures
            r == (Ipv6 { s0, s1, s2, s3, s4, s5, s6, s7 }),
    {
        Ipv6 { s0, s1, s2, s3, s4, s5, s6, s7 }
    }
}

/// The start-of-authority payload.
#[derive(Clone, Debug)]
pub struct SoaRecord {
    pub primary_ns: Name,
    pub mailbox: Name,
    pub serial: u32,
    pub refresh: u32,
    pub retry: u32,
    pub expire: u32,
    pub min_ttl: u32,
}

/// The service-locator payload of RFC 2782.
#[derive(Clone, Debug)]
pub struct SrvRecord {
    pub priority: u16,
    pub weight: u16,
    pub port: u16,
    pub target: Name,
}

/// The mail-exchange payload.
#[derive(Clone, Debug)]
pub struct MxRecord {
    pub preference: u16,
    pub exchange: Name,
}

/// A payload the library has no decoder for, kept raw with its type code.
#[derive(Clone, Debug)]
pub struct UnknownRecord {
    pub typecode: u16,
    pub data: Vec<u8>,
}

/// The spec-level image of a start-of-authority payload.
#[verifier::ext_equal]
pub ghost struct SoaV {
    pub primary_ns: Seq<Seq<u8>>,
    pub mailbox: Seq<Seq<u8>>,
    pub serial: u32,
    pub refresh: u32,
    pub retry: u32,
    pub expire: u32,
    pub min_ttl: u32,
}

/// The spec-level image of a service-locator payload.
#[verifier::ext_equal]
pub ghost struct SrvV {
    pub priority: u16,
    pub weight: u16,
    pub port: u16,
    pub target: Seq<Seq<u8>>,
}

/// The spec-level image of a mail-exchange payload.
#[verifier::ext_equal]
pub ghost struct MxV {
    pub preference: u16,
    pub exchange: Seq<Seq<u8>>,
}

/// The spec-level image of a record payload.
#[verifier::ext_equal]
pub ghost enum RDataV {
    CNAME(Seq<Seq<u8>>),
    NS(Seq<Seq<u8>>),
    A(Ipv4),
    AAAA(Ipv6),
    SRV(SrvV),
    SOA(SoaV),
    PTR(Seq<Seq<u8>>),
    MX(MxV),
    TXT(Seq<u8>),
    Unknown { typecode: u16, data: Seq<u8> },
}

impl View for SoaRecord {
    type V = SoaV;

    open spec fn view(&self) -> SoaV {
        SoaV {
            primary_ns: self.primary_ns@,
            mailbox: self.mailbox@,
            serial: self.serial,
            refresh: self.refresh,
            retry: self.retry,
            expire: self.expire,
            min_ttl: self.min_ttl,
        }
    }
}

impl View for SrvRecord {
    type V = SrvV;

    open spec fn view(&self) -> SrvV {
        SrvV {
            priority: self.priority,
            weight: self.weight,
            port: self.port,
            target: self.target@,
        }
    }
}

impl View for MxRecord {
    type V = MxV;

    open spec fn view(&self) -> MxV {
        MxV { preference: self.preference, exchange: self.exchange@ }
    }
}

/// The tagged union of record payloads.
#[derive(Clone, Debug)]
pub enum RRData {
    CNAME(Name),
    NS(Name),
    A(Ipv4),
    AAAA(Ipv6),
    SRV(SrvRecord),
    SOA(SoaRecord),
    PTR(Name),
    MX(MxRecord),
    TXT(Vec<u8>),
    Unknown(UnknownRecord),
}

impl View for RRData {
    type V = RDataV;

    open spec fn view(&self) -> RDataV {
        match self {
            RRData::CNAME(n) => RDataV::CNAME(n@),
            RRData::NS(n) => RDataV::NS(n@),
            RRData::A(a) => RDataV::A(*a),
            RRData::AAAA(a) => RDataV::AAAA(*a),
            RRData::SRV(s) => RDataV::SRV(s@),
            RRData::SOA(s) => RDataV::SOA(s@),
            RRData::PTR(n) => RDataV::PTR(n@),
            RRData::MX(m) => RDataV::MX(m@),
            RRData::TXT(b) => RDataV::TXT(b@),
            RRData::Unknown(u) => RDataV::Unknown { typecode: u.typecode, data: u.data@ },
        }
    }
}

/// The numeric type codes that dispatch to a concrete payload decoder, plus
/// the OPT code, which the normal record path refuses.
pub open spec fn dispatched_code(c: u16) -> bool {
    c == 1 || c == 2 || c == 5 || c == 6 || c == 12 || c == 15 || c == 16 || c == 28 || c == 33
        || c == 41
}

/// The type code a payload writes on the wire.
pub open spec fn rdata_typecode(d: RDataV) -> u16 {
    match d {
        RDataV::CNAME(_) => 5,
        RDataV::NS(_) => 2,
        RDataV::A(_) => 1,
        RDataV::AAAA(_) => 28,
        RDataV::SRV(_) => 33,
        RDataV::SOA(_) => 6,
        RDataV::PTR(_) => 12,
        RDataV::MX(_) => 15,
        RDataV::TXT(_) => 16,
        RDataV::Unknown { typecode, .. } => typecode,
    }
}

/// The body bytes of a payload, as the encoder emits them (uncompressed
/// names, big-endian integers, raw bytes for TXT and unknown payloads).
pub open spec fn rdata_body(d: RDataV) -> Seq<u8> {
    match d {
        RDataV::CNAME(n) => name_bytes(n),
        RDataV::NS(n) => name_bytes(n),
        RDataV::A(a) => seq![a.o0, a.o1, a.o2, a.o3],
        RDataV::AAAA(a) => be16_bytes(a.s0) + be16_bytes(a.s1) + be16_bytes(a.s2) + be16_bytes(
            a.s3,
        ) + be16_bytes(a.s4) + be16_bytes(a.s5) + be16_bytes(a.s6) + be16_bytes(a.s7),
        RDataV::SRV(s) => be16_bytes(s.priority) + be16_bytes(s.weight) + be16_bytes(s.port)
            + name_bytes(s.target),
        RDataV::SOA(s) => name_bytes(s.primary_ns) + name_bytes(s.mailbox) + be32_bytes(s.serial)
            + be32_bytes(s.refresh) + be32_bytes(s.retry) + be32_bytes(s.expire) + be32_bytes(
            s.min_ttl,
        ),
        RDataV::PTR(n) => name_bytes(n),
        RDataV::MX(m) => be16_bytes(m.preference) + name_bytes(m.exchange),
        RDataV::TXT(b) => b,
        RDataV::Unknown { data, .. } => data,
    }
}

/// Well-formedness of a payload: names are valid, raw bodies fit the 16-bit
/// length prefix, and an unknown payload's code is one the dispatch would
/// hand back to the raw decoder.
pub open spec fn valid_rdata(d: RDataV) -> bool {
    match d {
        RDataV::CNAME(n) => valid_name(n),
        RDataV::NS(n) => valid_name(n),
        RDataV::A(_) => true,
        RDataV::AAAA(_) => true,
        RDataV::SRV(s) => valid_name(s.target),
        RDataV::SOA(s) => valid_name(s.primary_ns) && valid_name(s.mailbox),
        RDataV::PTR(n) => valid_name(n),
        RDataV::MX(m) => valid_name(m.exchange),
        RDataV::TXT(b) => b.len() <= 0xFFFF,
        RDataV::Unknown { typecode, data } => !dispatched_code(typecode) && data.len() <= 0xFFFF,
    }
}

/// A well-formed payload's body always fits the 16-bit length prefix.
pub proof fn lemma_rdata_body_len(d: RDataV)
    requires
        valid_rdata(d),
    ensures
        rdata_body(d).len() <= 0xFFFF,
{
}

/// What the per-type decoder returns for the body of one record: the payload
/// and the position after it. `rdlen` only matters to the raw decoders; the
/// structured ones read their own fields and set the position themselves.
pub open spec fn spec_parse_rdata(d: Seq<u8>, pos: int, rdlen: u16, code: u16) -> Result<
    (RDataV, int),
    Error,
> {
    if code == 1 {
        if pos + 4 > d.len() {
            Err(Error::IoError)
        } else {
            Ok(
                (RDataV::A(
                    Ipv4 { o0: d[pos], o1: d[pos + 1], o2: d[pos + 2], o3: d[pos + 3] },
                ), pos + 4),
            )
        }
    } else if code == 2 {
        match spec_parse_name(d, pos) {
            Ok(t) => Ok((RDataV::NS(t.0), t.1)),
            Err(e) => Err(e),
        }
    } else if code == 5 {
        match spec_parse_name(d, pos) {
            Ok(t) => Ok((RDataV::CNAME(t.0), t.1)),
            Err(e) => Err(e),
        }
    } else if code == 6 {
        match spec_parse_name(d, pos) {
            Ok(t1) => match spec_parse_name(d, t1.1) {
                Ok(t2) => if t2.1 + 20 > d.len() {
                    Err(Error::IoError)
                } else {
                    let p = t2.1;
                    Ok(
                        (RDataV::SOA(
                            SoaV {
                                primary_ns: t1.0,
                                mailbox: t2.0,
                                serial: be32_val(d[p], d[p + 1], d[p + 2], d[p + 3]),
                                refresh: be32_val(d[p + 4], d[p + 5], d[p + 6], d[p + 7]),
                                retry: be32_val(d[p + 8], d[p + 9], d[p + 10], d[p + 11]),
                                expire: be32_val(d[p + 12], d[p + 13], d[p + 14], d[p + 15]),
                                min_ttl: be32_val(d[p + 16], d[p + 17], d[p + 18], d[p + 19]),
                            },
                        ), p + 20),
                    )
                },
                Err(e) => Err(e),
            },
            Err(e) => Err(e),
        }
    } else if code == 12 {
        match spec_parse_name(d, pos) {
            Ok(t) => Ok((RDataV::PTR(t.0), t.1)),
            Err(e) => Err(e),
        }
    } else if code == 15 {
        if pos + 2 > d.len() {
            Err(Error::IoError)
        } else {
            match spec_parse_name(d, pos + 2) {
                Ok(t) => Ok(
                    (RDataV::MX(
                        MxV { preference: be16_val(d[pos], d[pos + 1]), exchange: t.0 },
                    ), t.1),
                ),
                Err(e) => Err(e),
            }
        }
    } else if code == 16 {
        if pos + rdlen > d.len() {
            Err(Error::IoError)
        } else {
            Ok((RDataV::TXT(d.subrange(pos, pos + rdlen)), pos + rdlen))
        }
    } else if code == 28 {
        if pos + 16 > d.len() {
            Err(Error::IoError)
        } else {
            Ok(
                (RDataV::AAAA(
                    Ipv6 {
                        s0: be16_val(d[pos], d[pos + 1]),
                        s1: be16_val(d[pos + 2], d[pos + 3]),
                        s2: be16_val(d[pos + 4], d[pos + 5]),
                        s3: be16_val(d[pos + 6], d[pos + 7]),
                        s4: be16_val(d[pos + 8], d[pos + 9]),
                        s5: be16_val(d[pos + 10], d[pos + 11]),
                        s6: be16_val(d[pos + 12], d[pos + 13]),
                        s7: be16_val(d[pos + 14], d[pos + 15]),
                    },
                ), pos + 16),
            )
        }
    } else if code == 33 {
        if pos + 6 > d.len() {
            Err(Error::IoError)
        } else {
            match spec_parse_name(d, pos + 6) {
                Ok(t) => Ok(
                    (RDataV::SRV(
                        SrvV {
                            priority: be16_val(d[pos], d[pos + 1]),
                            weight: be16_val(d[pos + 2], d[pos + 3]),
                            port: be16_val(d[pos + 4], d[pos + 5]),
                            target: t.0,
                        },
                    ), t.1),
                ),
                Err(e) => Err(e),
            }
        }
    } else {
        if pos + rdlen > d.len() {
            Err(Error::IoError)
        } else {
            Ok(
                (RDataV::Unknown { typecode: code, data: d.subrange(pos, pos + rdlen) }, pos
                    + rdlen),
            )
        }
    }
}

/// Decodes the body of one record, dispatching on the numeric type code.
#[verifier::rlimit(100)]
#[verifier::spinoff_prover]
pub fn parse_rdata(data: &[u8], pos: usize, rdlen: u16, code: u16) -> (r: Result<
    (RRData, usize),
    Error,
>)
    ensures
        match r {
            Ok(t) => spec_parse_rdata(data@, pos as int, rdlen, code) == Ok::<
                (RDataV, int),
                Error,
            >((t.0@, t.1 as int)) && t.1 <= data@.len() && (code != 41 ==> valid_rdata(t.0@)),
            Err(e) => spec_parse_rdata(data@, pos as int, rdlen, code) == Err::<
                (RDataV, int),
                Error,
            >(e),
        },
{
    if code == 1 {
        let (o0, p) = match read_u8(data, pos) {
            Ok(t) => t,
            Err(e) => {
                return Err(e);
            },
        };
        let (o1, p) = match read_u8(data, p) {
            Ok(t) => t,
            Err(e) => {
                return Err(e);
            },
        };
        let (o2, p) = match read_u8(data, p) {
            Ok(t) => t,
            Err(e) => {
                return Err(e);
            },
        };
        let (o3, p) = match read_u8(data, p) {
            Ok(t) => t,
            Err(e) => {
                return Err(e);
            },
        };
        Ok((RRData::A(Ipv4 { o0, o1, o2, o3 }), p))
    } else if code == 2 {
        match Name::parse(data, pos) {
            Ok((n, p)) => Ok((RRData::NS(n), p)),
            Err(e) => Err(e),
        }
    } else if code == 5 {
        match Name::parse(data, pos) {
            Ok((n, p)) => Ok((RRData::CNAME(n), p)),
            Err(e) => Err(e),
        }
    } else if code == 6 {
        let (primary_ns, p) = match Name::parse(data, pos) {
            Ok(t) => t,
            Err(e) => {
                return Err(e);
            },
        };
        let (mailbox, p) = match Name::parse(data, p) {
            Ok(t) => t,
            Err(e) => {
                return Err(e);
            },
        };
        if data.len() < 20 || p > data.len() - 20 {
            return Err(Error::IoError);
        }
        let (serial, p) = match read_u32(data, p) {
            Ok(t) => t,
            Err(e) => {
                return Err(e);
            },
        };
        let (refresh, p) = match read_u32(data, p) {
            Ok(t) => t,
            Err(e) => {
                return Err(e);
            },
        };
        let (retry, p) = match read_u32(data, p) {
            Ok(t) => t,
            Err(e) => {
                return Err(e);
            },
        };
        let (expire, p) = match read_u32(data, p) {
            Ok(t) => t,
            Err(e) => {
                return Err(e);
            },
        };
        let (min_ttl, p) = match read_u32(data, p) {
            Ok(t) => t,
            Err(e) => {
                return Err(e);
            },
        };
        Ok(
            (RRData::SOA(
                SoaRecord { primary_ns, mailbox, serial, refresh, retry, expire, min_ttl },
            ), p),
        )
    } else if code == 12 {
        match Name::parse(data, pos) {
            Ok((n, p)) => Ok((RRData::PTR(n), p)),
            Err(e) => Err(e),
        }
    } else if code == 15 {
        let (preference, p) = match read_u16(data, pos) {
            Ok(t) => t,
            Err(e) => {
                return Err(e);
            },
        };
        match Name::parse(data, p) {
            Ok((exchange, p)) => Ok((RRData::MX(MxRecord { preference, exchange }), p)),
            Err(e) => Err(e),
        }
    } else if code == 16 {
        let rl = rdlen as usize;
        if data.len() < rl || pos > data.len() - rl {
            return Err(Error::IoError);
        }
        let body = slice_subrange(data, pos, pos + rl);
        Ok((RRData::TXT(slice_to_vec(body)), pos + rl))
    } else if code == 28 {
        let (s0, p) = match read_u16(data, pos) {
            Ok(t) => t,
            Err(e) => {
                return Err(e);
            },
        };
        let (s1, p) = match read_u16(data, p) {
            Ok(t) => t,
            Err(e) => {
                return Err(e);
            },
        };
        let (s2, p) = match read_u16(data, p) {
            Ok(t) => t,
            Err(e) => {
                return Err(e);
            },
        };
        let (s3, p) = match read_u16(data, p) {
            Ok(t) => t,
            Err(e) => {
                return Err(e);
            },
        };
        let (s4, p) = match read_u16(data, p) {
            Ok(t) => t,
            Err(e) => {
                return Err(e);
            },
        };
        let (s5, p) = match read_u16(data, p) {
            Ok(t) => t,
            Err(e) => {
                return Err(e);
            },
        };
        let (s6, p) = match read_u16(data, p) {
            Ok(t) => t,
            Err(e) => {
                return Err(e);
            },
        };
        let (s7, p) = match read_u16(data, p) {
            Ok(t) => t,
            Err(e) => {
                return Err(e);
            },
        };
        Ok((RRData::AAAA(Ipv6 { s0, s1, s2, s3, s4, s5, s6, s7 }), p))
    } else if code == 33 {
        let (priority, p) = match read_u16(data, pos) {
            Ok(t) => t,
            Err(e) => {
                return Err(e);
            },
        };
        let (weight, p) = match read_u16(data, p) {
            Ok(t) => t,
            Err(e) => {
                return Err(e);
            },
        };
        let (port, p) = match read_u16(data, p) {
            Ok(t) => t,
            Err(e) => {
                return Err(e);
            },
        };
        match Name::parse(data, p) {
            Ok((target, p)) => Ok((RRData::SRV(SrvRecord { priority, weight, port, target }), p)),
            Err(e) => Err(e),
        }
    } else {
        let rl = rdlen as usize;
        if data.len() < rl || pos > data.len() - rl {
            return Err(Error::IoError);
        }
        let body = slice_subrange(data, pos, pos + rl);
        Ok((RRData::Unknown(UnknownRecord { typecode: code, data: slice_to_vec(body) }), pos + rl))
    }
}

/// Appends the body bytes of a payload.
pub fn serialize_rdata(d: &RRData, out: &mut Vec<u8>) -> (r: Result<(), Error>)
    requires
        valid_rdata(d@),
    ensures
        r is Ok,
        final(out)@ == old(out)@ + rdata_body(d@),
{
    match d {
        RRData::CNAME(n) => {
            let r = n.serialize(out);
        },
        RRData::NS(n) => {
            let r = n.serialize(out);
        },
        RRData::A(a) => {
            push_u8(out, a.o0);
            push_u8(out, a.o1);
            push_u8(out, a.o2);
            push_u8(out, a.o3);
            proof {
                assert(out@ =~= old(out)@ + rdata_body(d@));
            }
        },
        RRData::AAAA(a) => {
            push_u16(out, a.s0);
            push_u16(out, a.s1);
            push_u16(out, a.s2);
            push_u16(out, a.s3);
            push_u16(out, a.s4);
            push_u16(out, a.s5);
            push_u16(out, a.s6);
            push_u16(out, a.s7);
            proof {
                assert(out@ =~= old(out)@ + rdata_body(d@));
            }
        },
        RRData::SRV(s) => {
            push_u16(out, s.priority);
            push_u16(out, s.weight);
            push_u16(out, s.port);
            let r = s.target.serialize(out);
            proof {
                assert(out@ =~= old(out)@ + rdata_body(d@));
            }
        },
        RRData::SOA(s) => {
            let r = s.primary_ns.serialize(out);
            let r = s.mailbox.serialize(out);
            push_u32(out, s.serial);
            push_u32(out, s.refresh);
            push_u32(out, s.retry);
            push_u32(out, s.expire);
            push_u32(out, s.min_ttl);
            proof {
                assert(out@ =~= old(out)@ + rdata_body(d@));
            }
        },
        RRData::PTR(n) => {
            let r = n.serialize(out);
        },
        RRData::MX(m) => {
            push_u16(out, m.preference);
            let r = m.exchange.serialize(out);
            proof {
                assert(out@ =~= old(out)@ + rdata_body(d@));
            }
        },
        RRData::TXT(b) => {
            let mut i: usize = 0;
            let ghost start = out@;
            while i < b.len()
                invariant
                    i <= b@.len(),
                    out@ == start + b@.subrange(0, i as int),
                decreases b@.len() - i,
            {
                let byte = b[i];
                out.push(byte);
                i += 1;
                proof {
                    assert(out@ =~= start + b@.subrange(0, i as int));
                }
            }
            proof {
                assert(out@ =~= old(out)@ + rdata_body(d@));
            }
        },
        RRData::Unknown(u) => {
            let mut i: usize = 0;
            let ghost start = out@;
            while i < u.data.len()
                invariant
                    i <= u.data@.len(),
                    out@ == start + u.data@.subrange(0, i as int),
                decreases u.data@.len() - i,
            {
                let byte = u.data[i];
                out.push(byte);
                i += 1;
                proof {
                    assert(out@ =~= start + u.data@.subrange(0, i as int));
                }
            }
            proof {
                assert(out@ =~= old(out)@ + rdata_body(d@));
            }
        },
    }
    Ok(())
}

/// The symbolic type a payload answers to; an unknown payload keeps its
/// numeric code.
pub open spec fn rdata_type(d: RDataV) -> Type {
    match d {
        RDataV::CNAME(_) => Type::CNAME,
        RDataV::NS(_) => Type::NS,
        RDataV::A(_) => Type::A,
        RDataV::AAAA(_) => Type::AAAA,
        RDataV::SRV(_) => Type::SRV,
        RDataV::SOA(_) => Type::SOA,
        RDataV::PTR(_) => Type::PTR,
        RDataV::MX(_) => Type::MX,
        RDataV::TXT(_) => Type::TXT,
        RDataV::Unknown { typecode, .. } => Type::Unknown(typecode),
    }
}

impl RRData {
    /// The numeric type code this payload writes on the wire.
    pub fn typecode(&self) -> (c: u16)
        ensures
            c == rdata_typecode(self@),
    {
        match self {
            RRData::CNAME(_) => 5,
            RRData::NS(_) => 2,
            RRData::A(_) => 1,
            RRData::AAAA(_) => 28,
            RRData::SRV(_) => 33,
            RRData::SOA(_) => 6,
            RRData::PTR(_) => 12,
            RRData::MX(_) => 15,
            RRData::TXT(_) => 16,
            RRData::Unknown(u) => u.typecode,
        }
    }
}

/// The spec-level image of a resource record.
#[verifier::ext_equal]
pub ghost struct RecordV {
    pub name: Seq<Seq<u8>>,
    pub multicast_unique: bool,
    pub class: Class,
    pub ttl: u32,
    pub data: RDataV,
}

/// The 16-bit class field: the class code in the low 15 bits, the
/// cache-flush or unicast-preference flag in the top bit.
pub open spec fn class_word(c: Class, high: bool) -> u16 {
    if high {
        (c.spec_code() + 0x8000) as u16
    } else {
        c.spec_code()
    }
}

/// Well-formedness of a record: a valid owner name, a class code that fits
/// the low 15 bits and maps back to the same class, and a valid payload.
pub open spec fn valid_record(r: RecordV) -> bool {
    &&& valid_name(r.name)
    &&& r.class.spec_code() <= 0x7FFF
    &&& Class::spec_from(r.class.spec_code()) == r.class
    &&& valid_rdata(r.data)
}

/// The wire form of a record: owner name, type, class word, TTL, then the
/// body behind its 16-bit length.
pub open spec fn record_bytes(r: RecordV) -> Seq<u8> {
    name_bytes(r.name) + be16_bytes(rdata_typecode(r.data)) + be16_bytes(
        class_word(r.class, r.multicast_unique),
    ) + be32_bytes(r.ttl) + be16_bytes(rdata_body(r.data).len() as u16) + rdata_body(r.data)
}

/// What the normal record reader returns on `d` at `pos`. The OPT code is
/// refused here: OPT belongs only to the additional path.
pub open spec fn spec_parse_record(d: Seq<u8>, pos: int) -> Result<(RecordV, int), Error> {
    match spec_parse_name(d, pos) {
        Ok(t) => {
            let p1 = t.1;
            if p1 + 2 > d.len() {
                Err(Error::IoError)
            } else {
                let code = be16_val(d[p1], d[p1 + 1]);
                if code == 41 {
                    Err(Error::InvalidOpt)
                } else if p1 + 10 > d.len() {
                    Err(Error::IoError)
                } else {
                    let word = be16_val(d[p1 + 2], d[p1 + 3]);
                    let ttl = be32_val(d[p1 + 4], d[p1 + 5], d[p1 + 6], d[p1 + 7]);
                    let rdlen = be16_val(d[p1 + 8], d[p1 + 9]);
                    match spec_parse_rdata(d, p1 + 10, rdlen, code) {
                        Ok(t2) => Ok(
                            (RecordV {
                                name: t.0,
                                multicast_unique: word >= 0x8000,
                                class: Class::spec_from((word % 0x8000) as u16),
                                ttl,
                                data: t2.0,
                            }, t2.1),
                        ),
                        Err(e) => Err(e),
                    }
                }
            }
        },
        Err(e) => Err(e),
    }
}

/// Parsing the body bytes of a well-formed payload under its own type code
/// and length restores it.
#[verifier::rlimit(100)]
#[verifier::spinoff_prover]
pub proof fn lemma_parse_rdata_of_serialized(d: Seq<u8>, pos: int, dat: RDataV)
    requires
        valid_rdata(dat),
        0 <= pos,
        pos + rdata_body(dat).len() <= d.len(),
        d.subrange(pos, pos + rdata_body(dat).len()) == rdata_body(dat),
    ensures
        spec_parse_rdata(d, pos, rdata_body(dat).len() as u16, rdata_typecode(dat)) == Ok::<
            (RDataV, int),
            Error,
        >((dat, pos + rdata_body(dat).len())),
{
    let body = rdata_body(dat);
    assert forall|i: int| 0 <= i < body.len() implies d[pos + i] == body[i] by {
        assert(d.subrange(pos, pos + body.len())[i] == d[pos + i]);
    }
    match dat {
        RDataV::CNAME(n) => {
            lemma_name_at(d, pos, n, body, 0);
        },
        RDataV::NS(n) => {
            lemma_name_at(d, pos, n, body, 0);
        },
        RDataV::PTR(n) => {
            lemma_name_at(d, pos, n, body, 0);
        },
        RDataV::A(a) => {
            assert(body[0] == a.o0 && body[1] == a.o1 && body[2] == a.o2 && body[3] == a.o3);
        },
        RDataV::AAAA(a) => {
            lemma_be16_at(d, pos, a.s0, body, 0);
            lemma_be16_at(d, pos, a.s1, body, 2);
            lemma_be16_at(d, pos, a.s2, body, 4);
            lemma_be16_at(d, pos, a.s3, body, 6);
            lemma_be16_at(d, pos, a.s4, body, 8);
            lemma_be16_at(d, pos, a.s5, body, 10);
            lemma_be16_at(d, pos, a.s6, body, 12);
            lemma_be16_at(d, pos, a.s7, body, 14);
        },
        RDataV::SRV(s) => {
            lemma_be16_at(d, pos, s.priority, body, 0);
            lemma_be16_at(d, pos, s.weight, body, 2);
            lemma_be16_at(d, pos, s.port, body, 4);
            lemma_name_at(d, pos, s.target, body, 6);
        },
        RDataV::MX(m) => {
            lemma_be16_at(d, pos, m.preference, body, 0);
            lemma_name_at(d, pos, m.exchange, body, 2);
        },
        RDataV::SOA(s) => {
            let l1 = name_bytes(s.primary_ns).len() as int;
            let l2 = name_bytes(s.mailbox).len() as int;
            lemma_name_at(d, pos, s.primary_ns, body, 0);
            lemma_name_at(d, pos, s.mailbox, body, l1);
            lemma_be32_at(d, pos, s.serial, body, l1 + l2);
            lemma_be32_at(d, pos, s.refresh, body, l1 + l2 + 4);
            lemma_be32_at(d, pos, s.retry, body, l1 + l2 + 8);
            lemma_be32_at(d, pos, s.expire, body, l1 + l2 + 12);
            lemma_be32_at(d, pos, s.min_ttl, body, l1 + l2 + 16);
        },
        RDataV::TXT(b) => {
            assert(d.subrange(pos, pos + b.len()) =~= b);
        },
        RDataV::Unknown { typecode, data } => {
            assert(d.subrange(pos, pos + data.len()) =~= data);
        },
    }
}

/// The bytes at `off` in a buffer slice known pointwise equal to `body`
/// spell the given 16-bit value.
proof fn lemma_be16_at(d: Seq<u8>, pos: int, v: u16, body: Seq<u8>, off: int)
    requires
        0 <= pos,
        0 <= off,
        off + 2 <= body.len(),
        pos + body.len() <= d.len(),
        forall|i: int| 0 <= i < body.len() ==> d[pos + i] == body[i],
        body[off] == be16_bytes(v)[0],
        body[off + 1] == be16_bytes(v)[1],
    ensures
        be16_val(d[pos + off], d[pos + off + 1]) == v,
{
    crate::wire::lemma_be16_roundtrip(v);
    assert(d[pos + off] == body[off]);
    assert(d[pos + (off + 1)] == body[off + 1]);
}

/// The bytes at `off` in a buffer slice known pointwise equal to `body`
/// spell the given 32-bit value.
proof fn lemma_be32_at(d: Seq<u8>, pos: int, v: u32, body: Seq<u8>, off: int)
    requires
        0 <= pos,
        0 <= off,
        off + 4 <= body.len(),
        pos + body.len() <= d.len(),
        forall|i: int| 0 <= i < body.len() ==> d[pos + i] == body[i],
        body[off] == be32_bytes(v)[0],
        body[off + 1] == be32_bytes(v)[1],
        body[off + 2] == be32_bytes(v)[2],
        body[off + 3] == be32_bytes(v)[3],
    ensures
        be32_val(d[pos + off], d[pos + off + 1], d[pos + off + 2], d[pos + off + 3]) == v,
{
    crate::wire::lemma_be32_roundtrip(v);
    assert(d[pos + off] == body[off]);
    assert(d[pos + (off + 1)] == body[off + 1]);
    assert(d[pos + (off + 2)] == body[off + 2]);
    assert(d[pos + (off + 3)] == body[off + 3]);
}

/// A name whose wire form sits at `off` of `body` parses back from there.
proof fn lemma_name_at(d: Seq<u8>, pos: int, n: Seq<Seq<u8>>, body: Seq<u8>, off: int)
    requires
        valid_name(n),
        0 <= pos,
        0 <= off,
        off + name_bytes(n).len() <= body.len(),
        pos + body.len() <= d.len(),
        forall|i: int| 0 <= i < body.len() ==> d[pos + i] == body[i],
        forall|k: int| 0 <= k < name_bytes(n).len() ==> body[off + k] == name_bytes(n)[k],
    ensures
        spec_parse_name(d, pos + off) == Ok::<(Seq<Seq<u8>>, int), Error>(
            (n, pos + off + name_bytes(n).len()),
        ),
{
    let nb = name_bytes(n);
    assert forall|k: int| 0 <= k < nb.len() implies d.subrange(pos + off, pos + off + nb.len())[k]
        == nb[k] by {
        assert(d[pos + (off + k)] == body[off + k]);
    }
    assert(d.subrange(pos + off, pos + off + nb.len()) =~= nb);
    crate::name::lemma_parse_of_serialized_name(d, pos + off, n);
}

/// A resource record: owner name and header fields wrapping a payload.
#[derive(Clone, Debug)]
pub struct ResourceRecord {
    pub name: Name,
    pub multicast_unique: bool,
    pub class: Class,
    pub ttl: u32,
    pub data: RRData,
}

impl View for ResourceRecord {
    type V = RecordV;

    open spec fn view(&self) -> RecordV {
        RecordV {
            name: self.name@,
            multicast_unique: self.multicast_unique,
            class: self.class,
            ttl: self.ttl,
            data: self.data@,
        }
    }
}

impl ResourceRecord {
    pub open spec fn wf(&self) -> bool {
        valid_record(self@)
    }

    /// The owner name of the record.
    pub fn name(&self) -> (r: &Name)
        ensures
            r@ == self@.name,
    {
        &self.name
    }

    /// The class of the record.
    pub fn class(&self) -> (r: Class)
        ensures
            r == self@.class,
    {
        self.class
    }

    /// The symbolic type of the payload.
    pub fn get_type(&self) -> (t: Type)
        ensures
            t == rdata_type(self@.data),
    {
        match &self.data {
            RRData::CNAME(_) => Type::CNAME,
            RRData::NS(_) => Type::NS,
            RRData::A(_) => Type::A,
            RRData::AAAA(_) => Type::AAAA,
            RRData::SRV(_) => Type::SRV,
            RRData::SOA(_) => Type::SOA,
            RRData::PTR(_) => Type::PTR,
            RRData::MX(_) => Type::MX,
            RRData::TXT(_) => Type::TXT,
            RRData::Unknown(u) => Type::Unknown(u.typecode),
        }
    }

    /// Reads one record on the normal path; an OPT here fails `InvalidOpt`.
    pub fn parse(data: &[u8], pos: usize) -> (r: Result<(ResourceRecord, usize), Error>)
        ensures
            match r {
                Ok(t) => spec_parse_record(data@, pos as int) == Ok::<(RecordV, int), Error>(
                    (t.0@, t.1 as int),
                ) && t.0.wf() && t.1 <= data@.len(),
                Err(e) => spec_parse_record(data@, pos as int) == Err::<(RecordV, int), Error>(e),
            },
    {
        let (name, p1) = match Name::parse(data, pos) {
            Ok(t) => t,
            Err(e) => {
                return Err(e);
            },
        };
        let (code, _p) = match read_u16(data, p1) {
            Ok(t) => t,
            Err(e) => {
                return Err(e);
            },
        };
        if code == 41 {
            return Err(Error::InvalidOpt);
        }
        if data.len() < 10 || p1 > data.len() - 10 {
            return Err(Error::IoError);
        }
        let (word, p2) = match read_u16(data, p1 + 2) {
            Ok(t) => t,
            Err(e) => {
                return Err(e);
            },
        };
        let (ttl, p3) = match read_u32(data, p2) {
            Ok(t) => t,
            Err(e) => {
                return Err(e);
            },
        };
        let (rdlen, p4) = match read_u16(data, p3) {
            Ok(t) => t,
            Err(e) => {
                return Err(e);
            },
        };
        let (payload, end) = match parse_rdata(data, p4, rdlen, code) {
            Ok(t) => t,
            Err(e) => {
                return Err(e);
            },
        };
        let multicast_unique = word >= 0x8000;
        let class = Class::from_code(word % 0x8000);
        proof {
            crate::enums::lemma_class_code_roundtrip((word % 0x8000) as u16);
        }
        Ok((ResourceRecord { name, multicast_unique, class, ttl, data: payload }, end))
    }

    /// Appends the wire form of this record.
    pub fn serialize(&self, out: &mut Vec<u8>) -> (r: Result<(), Error>)
        requires
            self.wf(),
        ensures
            r is Ok,
            final(out)@ == old(out)@ + record_bytes(self@),
    {
        let r = self.name.serialize(out);
        push_u16(out, self.data.typecode());
        let mut cw: u16 = self.class.code();
        if self.multicast_unique {
            cw = cw + 0x8000;
        }
        push_u16(out, cw);
        push_u32(out, self.ttl);
        let mut body: Vec<u8> = Vec::new();
        let rb = serialize_rdata(&self.data, &mut body);
        proof {
            lemma_rdata_body_len(self@.data);
        }
        push_u16(out, body.len() as u16);
        out.append(&mut body);
        proof {
            assert(out@ =~= old(out)@ + record_bytes(self@));
        }
        Ok(())
    }
}

/// Parsing the wire form of a well-formed record restores it.
#[verifier::rlimit(100)]
#[verifier::spinoff_prover]
pub proof fn lemma_parse_record_of_serialized(d: Seq<u8>, pos: int, r: RecordV)
    requires
        valid_record(r),
        0 <= pos,
        pos + record_bytes(r).len() <= d.len(),
        d.subrange(pos, pos + record_bytes(r).len()) == record_bytes(r),
    ensures
        spec_parse_record(d, pos) == Ok::<(RecordV, int), Error>(
            (r, pos + record_bytes(r).len()),
        ),
{
    let rb = record_bytes(r);
    let nb = name_bytes(r.name);
    let body = rdata_body(r.data);
    let code = rdata_typecode(r.data);
    let w = class_word(r.class, r.multicast_unique);
    let ln: int = nb.len() as int;
    assert forall|i: int| 0 <= i < rb.len() implies d[pos + i] == rb[i] by {
        assert(d.subrange(pos, pos + rb.len())[i] == d[pos + i]);
    }
    lemma_name_at(d, pos, r.name, rb, 0);
    let p1 = pos + ln;
    lemma_be16_at(d, pos, code, rb, ln);
    assert(code != 41);
    lemma_be16_at(d, pos, w, rb, ln + 2);
    vstd::arithmetic::div_mod::lemma_fundamental_div_mod_converse(
        w as int,
        0x8000,
        if r.multicast_unique {
            1int
        } else {
            0int
        },
        r.class.spec_code() as int,
    );
    lemma_be32_at(d, pos, r.ttl, rb, ln + 4);
    lemma_rdata_body_len(r.data);
    lemma_be16_at(d, pos, body.len() as u16, rb, ln + 8);
    assert forall|k: int| 0 <= k < body.len() implies d.subrange(
        p1 + 10,
        p1 + 10 + body.len(),
    )[k] == body[k] by {
        assert(d[pos + (ln + 10 + k)] == rb[ln + 10 + k]);
        assert(rb[ln + 10 + k] == body[k]);
    }
    assert(d.subrange(p1 + 10, p1 + 10 + body.len()) =~= body);
    lemma_parse_rdata_of_serialized(d, p1 + 10, r.data);
}

/// A well-formed record's wire form never opens with the OPT signature:
/// either the first length byte is non-zero, or the type code that follows
/// the root label differs from the OPT code.
#[verifier::rlimit(100)]
#[verifier::spinoff_prover]
pub proof fn lemma_record_not_opt_signature(d: Seq<u8>, pos: int, r: RecordV)
    requires
        valid_record(r),
        0 <= pos,
        pos + record_bytes(r).len() <= d.len(),
        d.subrange(pos, pos + record_bytes(r).len()) == record_bytes(r),
    ensures
        pos + 4 <= d.len(),
        be32_val(d[pos], d[pos + 1], d[pos + 2], d[pos + 3]) / 256 != 41,
{
    let rb = record_bytes(r);
    let nb = name_bytes(r.name);
    let code = rdata_typecode(r.data);
    assert forall|i: int| 0 <= i < rb.len() implies d[pos + i] == rb[i] by {
        assert(d.subrange(pos, pos + rb.len())[i] == d[pos + i]);
    }
    assert(rb.len() >= nb.len() + 10);
    assert(nb.len() >= 1);
    let b0 = d[pos];
    let b1 = d[pos + 1];
    let b2 = d[pos + 2];
    let b3 = d[pos + 3];
    let w = be32_val(b0, b1, b2, b3);
    vstd::arithmetic::div_mod::lemma_fundamental_div_mod_converse(
        w as int,
        256,
        b0 as int * 0x10000 + b1 as int * 256 + b2 as int,
        b3 as int,
    );
    if r.name.len() == 0 {
        assert(rb[0] == nb[0]);
        assert(nb =~= seq![0u8]);
        assert(b0 == 0);
        assert(rb[1] == be16_bytes(code)[0]);
        assert(rb[2] == be16_bytes(code)[1]);
        assert(b1 == code / 256 && b2 == code % 256);
        assert(code != 41);
        assert(b1 as int * 256 + b2 as int == code) by {
            crate::wire::lemma_be16_roundtrip(code);
        }
    } else {
        assert(nb[0] == crate::name::label_bytes(r.name[0])[0]);
        assert(rb[0] == nb[0]);
        assert(1 <= b0 <= 63);
    }
}

/// The EDNS0 pseudo-record of the additional section.
#[derive(Clone, Debug)]
pub struct OptRecord {
    pub udp: u16,
    pub extrcode: u8,
    pub version: u8,
    pub flags: u16,
    pub data: Vec<u8>,
}

/// The spec-level image of the OPT pseudo-record.
#[verifier::ext_equal]
pub ghost struct OptV {
    pub udp: u16,
    pub extrcode: u8,
    pub version: u8,
    pub flags: u16,
    pub data: Seq<u8>,
}

impl View for OptRecord {
    type V = OptV;

    open spec fn view(&self) -> OptV {
        OptV {
            udp: self.udp,
            extrcode: self.extrcode,
            version: self.version,
            flags: self.flags,
            data: self.data@,
        }
    }
}

/// Well-formedness of an OPT: its option bytes fit the 16-bit length.
pub open spec fn valid_opt(o: OptV) -> bool {
    o.data.len() <= 0xFFFF
}

/// The wire form of the OPT pseudo-record: root owner, type 41, then the
/// EDNS fields in place of class and TTL, then the options behind their
/// 16-bit length.
pub open spec fn opt_bytes(o: OptV) -> Seq<u8> {
    seq![0u8] + be16_bytes(41) + be16_bytes(o.udp) + seq![o.extrcode] + seq![o.version]
        + be16_bytes(o.flags) + be16_bytes(o.data.len() as u16) + o.data
}

impl OptRecord {
    pub open spec fn wf(&self) -> bool {
        valid_opt(self@)
    }

    /// Appends the wire form of the OPT pseudo-record.
    pub fn serialize(&self, out: &mut Vec<u8>) -> (r: Result<(), Error>)
        requires
            self.wf(),
        ensures
            r is Ok,
            final(out)@ == old(out)@ + opt_bytes(self@),
    {
        push_u8(out, 0);
        push_u16(out, 41);
        push_u16(out, self.udp);
        push_u8(out, self.extrcode);
        push_u8(out, self.version);
        push_u16(out, self.flags);
        push_u16(out, self.data.len() as u16);
        let mut i: usize = 0;
        let ghost start = out@;
        while i < self.data.len()
            invariant
                i <= self.data@.len(),
                out@ == start + self.data@.subrange(0, i as int),
            decreases self.data@.len() - i,
        {
            let byte = self.data[i];
            out.push(byte);
            i += 1;
            proof {
                assert(out@ =~= start + self.data@.subrange(0, i as int));
            }
        }
        proof {
            assert(self.data@.subrange(0, self.data@.len() as int) =~= self.data@);
            assert(out@ =~= old(out)@ + opt_bytes(self@));
        }
        Ok(())
    }
}

/// On the additional path, a serialized normal record is never sniffed as
/// an OPT and parses back as itself.
pub proof fn lemma_parse_additional_of_record(d: Seq<u8>, pos: int, r: RecordV)
    requires
        valid_record(r),
        0 <= pos,
        pos + record_bytes(r).len() <= d.len(),
        d.subrange(pos, pos + record_bytes(r).len()) == record_bytes(r),
    ensures
        spec_parse_additional(d, pos) == Ok::<(AddlV, int), Error>(
            (AddlV::Rr(r), pos + record_bytes(r).len()),
        ),
{
    lemma_record_not_opt_signature(d, pos, r);
    lemma_parse_record_of_serialized(d, pos, r);
}

/// On the additional path, a serialized OPT pseudo-record is recognized and
/// parses back as itself.
#[verifier::rlimit(100)]
#[verifier::spinoff_prover]
pub proof fn lemma_parse_additional_of_opt(d: Seq<u8>, pos: int, o: OptV)
    requires
        valid_opt(o),
        0 <= pos,
        pos + opt_bytes(o).len() <= d.len(),
        d.subrange(pos, pos + opt_bytes(o).len()) == opt_bytes(o),
    ensures
        spec_parse_additional(d, pos) == Ok::<(AddlV, int), Error>(
            (AddlV::Opt(o), pos + opt_bytes(o).len()),
        ),
{
    let ob = opt_bytes(o);
    assert forall|i: int| 0 <= i < ob.len() implies d[pos + i] == ob[i] by {
        assert(d.subrange(pos, pos + ob.len())[i] == d[pos + i]);
    }
    assert(ob.len() == 11 + o.data.len());
    assert(ob[0] == 0u8);
    crate::wire::lemma_be16_roundtrip(41);
    assert(ob[1] == 0u8 && ob[2] == 41u8);
    crate::wire::lemma_be16_roundtrip(o.udp);
    assert(ob[3] == be16_bytes(o.udp)[0] && ob[4] == be16_bytes(o.udp)[1]);
    let b3 = d[pos + 3];
    let w = be32_val(d[pos], d[pos + 1], d[pos + 2], b3);
    assert(w == 41 * 256 + b3 as int);
    vstd::arithmetic::div_mod::lemma_fundamental_div_mod_converse(w as int, 256, 41, b3 as int);
    lemma_be16_at(d, pos, o.udp, ob, 3);
    assert(ob[5] == o.extrcode && ob[6] == o.version);
    lemma_be16_at(d, pos, o.flags, ob, 7);
    lemma_be16_at(d, pos, o.data.len() as u16, ob, 9);
    assert forall|k: int| 0 <= k < o.data.len() implies d.subrange(
        pos + 11,
        pos + 11 + o.data.len(),
    )[k] == o.data[k] by {
        assert(d[pos + (11 + k)] == ob[11 + k]);
        assert(ob[11 + k] == o.data[k]);
    }
    assert(d.subrange(pos + 11, pos + 11 + o.data.len()) =~= o.data);
}

/// What the additional-path reader found: a normal record or the OPT.
pub enum ResourceRecordAddl {
    RR(ResourceRecord),
    OPT(OptRecord),
}

/// The spec-level image of an additional-path outcome.
#[verifier::ext_equal]
pub ghost enum AddlV {
    Rr(RecordV),
    Opt(OptV),
}

impl View for ResourceRecordAddl {
    type V = AddlV;

    open spec fn view(&self) -> AddlV {
        match self {
            ResourceRecordAddl::RR(r) => AddlV::Rr(r@),
            ResourceRecordAddl::OPT(o) => AddlV::Opt(o@),
        }
    }
}

/// What the additional-path reader returns: it peeks at four bytes; a zero
/// first byte directly followed by the OPT type code can only open an OPT
/// pseudo-record (a compression pointer would have its high bits set), and
/// anything else rewinds to the normal record path.
pub open spec fn spec_parse_additional(d: Seq<u8>, pos: int) -> Result<(AddlV, int), Error> {
    if pos + 4 > d.len() {
        Err(Error::IoError)
    } else {
        let w = be32_val(d[pos], d[pos + 1], d[pos + 2], d[pos + 3]);
        if w / 256 != 41 {
            match spec_parse_record(d, pos) {
                Ok(t) => Ok((AddlV::Rr(t.0), t.1)),
                Err(e) => Err(e),
            }
        } else {
            if pos + 11 > d.len() {
                Err(Error::IoError)
            } else {
                let rdlen = be16_val(d[pos + 9], d[pos + 10]);
                if pos + 11 + rdlen > d.len() {
                    Err(Error::IoError)
                } else {
                    Ok(
                        (AddlV::Opt(
                            OptV {
                                udp: be16_val(d[pos + 3], d[pos + 4]),
                                extrcode: d[pos + 5],
                                version: d[pos + 6],
                                flags: be16_val(d[pos + 7], d[pos + 8]),
                                data: d.subrange(pos + 11, pos + 11 + rdlen),
                            },
                        ), pos + 11 + rdlen),
                    )
                }
            }
        }
    }
}

impl ResourceRecord {
    /// Reads one entry of the additional section, surfacing the OPT
    /// pseudo-record when its signature opens at the cursor.
    pub fn parse_additional(data: &[u8], pos: usize) -> (r: Result<
        (ResourceRecordAddl, usize),
        Error,
    >)
        ensures
            match r {
                Ok(t) => spec_parse_additional(data@, pos as int) == Ok::<(AddlV, int), Error>(
                    (t.0@, t.1 as int),
                ) && t.1 <= data@.len() && (match t.0 {
                    ResourceRecordAddl::RR(rec) => rec.wf(),
                    ResourceRecordAddl::OPT(o) => o.wf(),
                }),
                Err(e) => spec_parse_additional(data@, pos as int) == Err::<(AddlV, int), Error>(
                    e,
                ),
            },
    {
        let (w, _p4) = match read_u32(data, pos) {
            Ok(t) => t,
            Err(e) => {
                return Err(e);
            },
        };
        if w / 256 != 41 {
            return match ResourceRecord::parse(data, pos) {
                Ok((rec, end)) => Ok((ResourceRecordAddl::RR(rec), end)),
                Err(e) => Err(e),
            };
        }
        if data.len() < 11 || pos > data.len() - 11 {
            return Err(Error::IoError);
        }
        let (udp, _p) = match read_u16(data, pos + 3) {
            Ok(t) => t,
            Err(e) => {
                return Err(e);
            },
        };
        let extrcode = data[pos + 5];
        let version = data[pos + 6];
        let (flags, _p) = match read_u16(data, pos + 7) {
            Ok(t) => t,
            Err(e) => {
                return Err(e);
            },
        };
        let (rdlen, _p) = match read_u16(data, pos + 9) {
            Ok(t) => t,
            Err(e) => {
                return Err(e);
            },
        };
        let rl = rdlen as usize;
        if data.len() - (pos + 11) < rl {
            return Err(Error::IoError);
        }
        let body = slice_subrange(data, pos + 11, pos + 11 + rl);
        Ok(
            (ResourceRecordAddl::OPT(
                OptRecord { udp, extrcode, version, flags, data: slice_to_vec(body) },
            ), pos + 11 + rl),
        )
    }
}

} // verus!
