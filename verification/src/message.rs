//! The message header and the whole-message codec.
//!
//! The header packs its booleans and the opcode and response code into one
//! 16-bit flag word (MSB first: QR, opcode, AA, TC, RD, RA, Z, AD, CD,
//! RCODE). The message codec reads the header, the four section counts, and
//! then each section in order, surfacing the single OPT pseudo-record of the
//! additional section separately.
use vstd::prelude::*;

use crate::enums::Opcode;
use crate::enums::ResponseCode;
use crate::question::question_bytes;
use crate::question::spec_parse_question;
use crate::question::valid_question;
use crate::question::Question;
use crate::question::QuestionV;
use crate::rr::opt_bytes;
use crate::rr::record_bytes;
use crate::rr::spec_parse_additional;
use crate::rr::spec_parse_record;
use crate::rr::valid_opt;
use crate::rr::valid_record;
use crate::rr::AddlV;
use crate::rr::OptRecord;
use crate::rr::OptV;
use crate::rr::RecordV;
use crate::rr::ResourceRecord;
use crate::rr::ResourceRecordAddl;
use crate::wire::be16_bytes;
use crate::wire::be16_val;
use crate::wire::push_u16;
use crate::wire::read_u16;
use crate::Error;

verus! {

/// The fixed header of every message, counts aside.
#[derive(Clone, Copy, Debug, PartialEq, Eq, Structural)]
pub struct Header {
    pub id: u16,
    pub query: bool,
    pub opcode: Opcode,
    pub authoritative: bool,
    pub truncated: bool,
    pub recursion_desired: bool,
    pub recursion_available: bool,
    pub authenticated_data: bool,
    pub checking_disabled: bool,
    pub response_code: ResponseCode,
}

/// Well-formedness of a header: the opcode and response code fit their
/// 4-bit fields and map back to themselves.
pub open spec fn valid_header(h: Header) -> bool {
    &&& h.opcode.spec_code() <= 15
    &&& Opcode::spec_from(h.opcode.spec_code()) == h.opcode
    &&& h.response_code.spec_code() <= 15
    &&& ResponseCode::spec_from(h.response_code.spec_code()) == h.response_code
}

/// The 16-bit flag word of a header. Opcode and response code are taken
/// modulo 16, which never loses anything on a well-formed header.
pub open spec fn header_flags(h: Header) -> u16 {
    ((if h.query {
        0int
    } else {
        0x8000int
    }) + (h.opcode.spec_code() % 16) * 0x800 + (if h.authoritative {
        0x400int
    } else {
        0int
    }) + (if h.truncated {
        0x200int
    } else {
        0int
    }) + (if h.recursion_desired {
        0x100int
    } else {
        0int
    }) + (if h.recursion_available {
        0x80int
    } else {
        0int
    }) + (if h.authenticated_data {
        0x20int
    } else {
        0int
    }) + (if h.checking_disabled {
        0x10int
    } else {
        0int
    }) + h.response_code.spec_code() % 16) as u16
}

/// The header read back from an id and a flag word.
pub open spec fn header_of_flags(id: u16, flags: u16) -> Header {
    Header {
        id,
        query: flags < 0x8000,
        opcode: Opcode::spec_from(((flags / 0x800) % 16) as u16),
        authoritative: (flags / 0x400) % 2 == 1,
        truncated: (flags / 0x200) % 2 == 1,
        recursion_desired: (flags / 0x100) % 2 == 1,
        recursion_available: (flags / 0x80) % 2 == 1,
        authenticated_data: (flags / 0x20) % 2 == 1,
        checking_disabled: (flags / 0x10) % 2 == 1,
        response_code: ResponseCode::spec_from(flags % 16),
    }
}

/// Field extraction from a packed flag word, shown once at the bit level.
proof fn lemma_flag_fields(
    f: u16,
    qr: u16,
    op: u16,
    aa: u16,
    tc: u16,
    rd: u16,
    ra: u16,
    ad: u16,
    cd: u16,
    rc: u16,
)
    requires
        qr <= 1,
        op <= 15,
        aa <= 1,
        tc <= 1,
        rd <= 1,
        ra <= 1,
        ad <= 1,
        cd <= 1,
        rc <= 15,
        f == qr * 0x8000 + op * 0x800 + aa * 0x400 + tc * 0x200 + rd * 0x100 + ra * 0x80 + ad
            * 0x20 + cd * 0x10 + rc,
    ensures
        (f < 0x8000) == (qr == 0),
        (f / 0x800) % 16 == op,
        (f / 0x400) % 2 == aa,
        (f / 0x200) % 2 == tc,
        (f / 0x100) % 2 == rd,
        (f / 0x80) % 2 == ra,
        (f / 0x20) % 2 == ad,
        (f / 0x10) % 2 == cd,
        f % 16 == rc,
{
    assert((f < 0x8000) == (qr == 0) && (f / 0x800) % 16 == op && (f / 0x400) % 2 == aa && (f
        / 0x200) % 2 == tc && (f / 0x100) % 2 == rd && (f / 0x80) % 2 == ra && (f / 0x20) % 2
        == ad && (f / 0x10) % 2 == cd && f % 16 == rc) by (bit_vector)
        requires
            qr <= 1,
            op <= 15,
            aa <= 1,
            tc <= 1,
            rd <= 1,
            ra <= 1,
            ad <= 1,
            cd <= 1,
            rc <= 15,
            f == qr * 0x8000 + op * 0x800 + aa * 0x400 + tc * 0x200 + rd * 0x100 + ra * 0x80
                + ad * 0x20 + cd * 0x10 + rc,
    ;
}

/// Every field of a well-formed header survives the flag word.
pub proof fn lemma_header_flags_roundtrip(h: Header)
    requires
        valid_header(h),
    ensures
        header_of_flags(h.id, header_flags(h)) == h,
{
    let f = header_flags(h);
    lemma_flag_fields(
        f,
        if h.query {
            0
        } else {
            1
        },
        h.opcode.spec_code(),
        if h.authoritative {
            1
        } else {
            0
        },
        if h.truncated {
            1
        } else {
            0
        },
        if h.recursion_desired {
            1
        } else {
            0
        },
        if h.recursion_available {
            1
        } else {
            0
        },
        if h.authenticated_data {
            1
        } else {
            0
        },
        if h.checking_disabled {
            1
        } else {
            0
        },
        h.response_code.spec_code(),
    );
}

/// What the header reader returns: the id, the flag word unpacked, and the
/// position just past the two words.
pub open spec fn spec_parse_header(d: Seq<u8>, pos: int) -> Result<(Header, int), Error> {
    if pos + 4 > d.len() {
        Err(Error::IoError)
    } else {
        Ok((header_of_flags(be16_val(d[pos], d[pos + 1]), be16_val(d[pos + 2], d[pos + 3])), pos
            + 4))
    }
}

impl Header {
    pub open spec fn wf(&self) -> bool {
        valid_header(*self)
    }

    /// Computes the flag word of this header.
    pub fn flags_word(&self) -> (f: u16)
        ensures
            f == header_flags(*self),
    {
        let mut f: u16 = 0;
        if !self.query {
            f = f + 0x8000;
        }
        f = f + (self.opcode.code() % 16) * 0x800;
        if self.authoritative {
            f = f + 0x400;
        }
        if self.truncated {
            f = f + 0x200;
        }
        if self.recursion_desired {
            f = f + 0x100;
        }
        if self.recursion_available {
            f = f + 0x80;
        }
        if self.authenticated_data {
            f = f + 0x20;
        }
        if self.checking_disabled {
            f = f + 0x10;
        }
        f = f + self.response_code.code() % 16;
        f
    }

    /// Reads the id and the flag word.
    pub fn parse(data: &[u8], pos: usize) -> (r: Result<(Header, usize), Error>)
        ensures
            match r {
                Ok(t) => spec_parse_header(data@, pos as int) == Ok::<(Header, int), Error>(
                    (t.0, t.1 as int),
                ) && t.0.wf() && t.1 <= data@.len(),
                Err(e) => spec_parse_header(data@, pos as int) == Err::<(Header, int), Error>(e),
            },
    {
        let (id, p) = match read_u16(data, pos) {
            Ok(t) => t,
            Err(e) => {
                return Err(e);
            },
        };
        let (flags, p2) = match read_u16(data, p) {
            Ok(t) => t,
            Err(e) => {
                return Err(e);
            },
        };
        let opcode = Opcode::from_code((flags / 0x800) % 16);
        let response_code = ResponseCode::from_code(flags % 16);
        proof {
            crate::enums::lemma_opcode_code_roundtrip(((flags / 0x800) % 16) as u16);
            crate::enums::lemma_response_code_roundtrip((flags % 16) as u16);
        }
        Ok(
            (Header {
                id,
                query: flags < 0x8000,
                opcode,
                authoritative: (flags / 0x400) % 2 == 1,
                truncated: (flags / 0x200) % 2 == 1,
                recursion_desired: (flags / 0x100) % 2 == 1,
                recursion_available: (flags / 0x80) % 2 == 1,
                authenticated_data: (flags / 0x20) % 2 == 1,
                checking_disabled: (flags / 0x10) % 2 == 1,
                response_code,
            }, p2),
        )
    }

    /// Appends the id and the flag word.
    pub fn serialize(&self, out: &mut Vec<u8>) -> (r: Result<(), Error>)
        ensures
            r is Ok,
            final(out)@ == old(out)@ + be16_bytes(self.id) + be16_bytes(header_flags(*self)),
    {
        push_u16(out, self.id);
        let f = self.flags_word();
        push_u16(out, f);
        Ok(())
    }
}

/// The wire form of a question section.
pub open spec fn questions_bytes(qs: Seq<QuestionV>) -> Seq<u8>
    decreases qs.len(),
{
    if qs.len() == 0 {
        seq![]
    } else {
        question_bytes(qs[0]) + questions_bytes(qs.drop_first())
    }
}

/// Appending a question extends the section bytes on the right.
pub proof fn lemma_questions_bytes_push(qs: Seq<QuestionV>, q: QuestionV)
    ensures
        questions_bytes(qs.push(q)) == questions_bytes(qs) + question_bytes(q),
    decreases qs.len(),
{
    if qs.len() == 0 {
        assert(qs.push(q).drop_first() =~= Seq::<QuestionV>::empty());
        assert(qs.push(q)[0] == q);
        assert(questions_bytes(qs.push(q)) == question_bytes(q) + questions_bytes(
            Seq::<QuestionV>::empty(),
        ));
        assert(questions_bytes(qs.push(q)) =~= questions_bytes(qs) + question_bytes(q));
    } else {
        assert(qs.push(q).drop_first() =~= qs.drop_first().push(q));
        assert(qs.push(q)[0] == qs[0]);
        lemma_questions_bytes_push(qs.drop_first(), q);
        assert(question_bytes(qs[0]) + (questions_bytes(qs.drop_first()) + question_bytes(q))
            =~= (question_bytes(qs[0]) + questions_bytes(qs.drop_first())) + question_bytes(q));
        assert(questions_bytes(qs.push(q)) =~= questions_bytes(qs) + question_bytes(q));
    }
}

/// The wire form of a record section.
pub open spec fn records_bytes(rs: Seq<RecordV>) -> Seq<u8>
    decreases rs.len(),
{
    if rs.len() == 0 {
        seq![]
    } else {
        record_bytes(rs[0]) + records_bytes(rs.drop_first())
    }
}

/// Appending a record extends the section bytes on the right.
pub proof fn lemma_records_bytes_push(rs: Seq<RecordV>, r: RecordV)
    ensures
        records_bytes(rs.push(r)) == records_bytes(rs) + record_bytes(r),
    decreases rs.len(),
{
    if rs.len() == 0 {
        assert(rs.push(r).drop_first() =~= Seq::<RecordV>::empty());
        assert(rs.push(r)[0] == r);
        assert(records_bytes(rs.push(r)) == record_bytes(r) + records_bytes(
            Seq::<RecordV>::empty(),
        ));
        assert(records_bytes(rs.push(r)) =~= records_bytes(rs) + record_bytes(r));
    } else {
        assert(rs.push(r).drop_first() =~= rs.drop_first().push(r));
        assert(rs.push(r)[0] == rs[0]);
        lemma_records_bytes_push(rs.drop_first(), r);
        assert(record_bytes(rs[0]) + (records_bytes(rs.drop_first()) + record_bytes(r)) =~= (
        record_bytes(rs[0]) + records_bytes(rs.drop_first())) + record_bytes(r));
        assert(records_bytes(rs.push(r)) =~= records_bytes(rs) + record_bytes(r));
    }
}

/// The spec-level image of a whole message.
#[verifier::ext_equal]
pub ghost struct MessageV {
    pub head: Header,
    pub questions: Seq<QuestionV>,
    pub answers: Seq<RecordV>,
    pub authority: Seq<RecordV>,
    pub additional: Seq<RecordV>,
    pub opt: Option<OptV>,
}

/// One if an OPT is present, else zero.
pub open spec fn opt_count(o: Option<OptV>) -> int {
    match o {
        Option::Some(_) => 1int,
        Option::None => 0int,
    }
}

/// Well-formedness of a message: a well-formed header, well-formed section
/// entries, counts that fit their 16-bit header fields (the OPT occupies one
/// slot of the additional count), and a well-formed OPT when present.
pub open spec fn valid_message(m: MessageV) -> bool {
    &&& valid_header(m.head)
    &&& m.questions.len() <= 0xFFFF
    &&& forall|i: int| 0 <= i < m.questions.len() ==> valid_question(#[trigger] m.questions[i])
    &&& m.answers.len() <= 0xFFFF
    &&& forall|i: int| 0 <= i < m.answers.len() ==> valid_record(#[trigger] m.answers[i])
    &&& m.authority.len() <= 0xFFFF
    &&& forall|i: int| 0 <= i < m.authority.len() ==> valid_record(#[trigger] m.authority[i])
    &&& m.additional.len() + opt_count(m.opt) <= 0xFFFF
    &&& forall|i: int| 0 <= i < m.additional.len() ==> valid_record(#[trigger] m.additional[i])
    &&& match m.opt {
        Option::Some(o) => valid_opt(o),
        Option::None => true,
    }
}

/// The additional count written on the wire: the plain additional records
/// plus one for the OPT pseudo-record when present.
pub open spec fn arcount_of(m: MessageV) -> u16 {
    (m.additional.len() + opt_count(m.opt)) as u16
}

/// The wire form of a whole message: header, the four counts, each section
/// in order, and finally the OPT pseudo-record when present.
pub open spec fn message_bytes(m: MessageV) -> Seq<u8> {
    be16_bytes(m.head.id) + be16_bytes(header_flags(m.head)) + be16_bytes(
        m.questions.len() as u16,
    ) + be16_bytes(m.answers.len() as u16) + be16_bytes(m.authority.len() as u16) + be16_bytes(
        arcount_of(m),
    ) + questions_bytes(m.questions) + records_bytes(m.answers) + records_bytes(m.authority)
        + records_bytes(m.additional) + (match m.opt {
        Option::Some(o) => opt_bytes(o),
        Option::None => seq![],
    })
}

/// What the question-section reader returns: `n` questions in order.
pub open spec fn spec_parse_questions(d: Seq<u8>, pos: int, n: nat) -> Result<
    (Seq<QuestionV>, int),
    Error,
>
    decreases n,
{
    if n == 0 {
        Ok((seq![], pos))
    } else {
        match spec_parse_question(d, pos) {
            Ok(t) => match spec_parse_questions(d, t.1, (n - 1) as nat) {
                Ok(t2) => Ok((seq![t.0] + t2.0, t2.1)),
                Err(e) => Err(e),
            },
            Err(e) => Err(e),
        }
    }
}

/// What a record-section reader returns: `n` records in order.
pub open spec fn spec_parse_records(d: Seq<u8>, pos: int, n: nat) -> Result<
    (Seq<RecordV>, int),
    Error,
>
    decreases n,
{
    if n == 0 {
        Ok((seq![], pos))
    } else {
        match spec_parse_record(d, pos) {
            Ok(t) => match spec_parse_records(d, t.1, (n - 1) as nat) {
                Ok(t2) => Ok((seq![t.0] + t2.0, t2.1)),
                Err(e) => Err(e),
            },
            Err(e) => Err(e),
        }
    }
}

/// What the additional-section reader returns: `n` entries, with the single
/// OPT surfaced apart; a second OPT fails `MultipleOpt`.
pub open spec fn spec_parse_additionals(d: Seq<u8>, pos: int, n: nat, opt: Option<OptV>) -> Result<
    (Seq<RecordV>, Option<OptV>, int),
    Error,
>
    decreases n,
{
    if n == 0 {
        Ok((seq![], opt, pos))
    } else {
        match spec_parse_additional(d, pos) {
            Ok(t) => match t.0 {
                AddlV::Rr(rec) => match spec_parse_additionals(d, t.1, (n - 1) as nat, opt) {
                    Ok(t2) => Ok((seq![rec] + t2.0, t2.1, t2.2)),
                    Err(e) => Err(e),
                },
                AddlV::Opt(o) => match opt {
                    Option::Some(_) => Err(Error::MultipleOpt),
                    Option::None => spec_parse_additionals(
                        d,
                        t.1,
                        (n - 1) as nat,
                        Option::Some(o),
                    ),
                },
            },
            Err(e) => Err(e),
        }
    }
}

/// What `Message::parse` returns on the buffer `d`.
pub open spec fn spec_parse_message(d: Seq<u8>) -> Result<MessageV, Error> {
    if d.len() < 12 {
        Err(Error::IoError)
    } else {
        let head = header_of_flags(be16_val(d[0], d[1]), be16_val(d[2], d[3]));
        let qd = be16_val(d[4], d[5]);
        let an = be16_val(d[6], d[7]);
        let ns = be16_val(d[8], d[9]);
        let ar = be16_val(d[10], d[11]);
        match spec_parse_questions(d, 12, qd as nat) {
            Ok(q) => match spec_parse_records(d, q.1, an as nat) {
                Ok(a) => match spec_parse_records(d, a.1, ns as nat) {
                    Ok(au) => match spec_parse_additionals(d, au.1, ar as nat, Option::None) {
                        Ok(ad) => Ok(
                            MessageV {
                                head,
                                questions: q.0,
                                answers: a.0,
                                authority: au.0,
                                additional: ad.0,
                                opt: ad.1,
                            },
                        ),
                        Err(e) => Err(e),
                    },
                    Err(e) => Err(e),
                },
                Err(e) => Err(e),
            },
            Err(e) => Err(e),
        }
    }
}

/// The views of a vector of questions.
pub open spec fn qs_view(s: Seq<Question>) -> Seq<QuestionV> {
    Seq::new(s.len(), |i: int| s[i]@)
}

/// The views of a vector of records.
pub open spec fn rs_view(s: Seq<ResourceRecord>) -> Seq<RecordV> {
    Seq::new(s.len(), |i: int| s[i]@)
}

/// The view of an optional OPT record.
pub open spec fn opt_view(o: Option<OptRecord>) -> Option<OptV> {
    match o {
        Option::Some(r) => Option::Some(r@),
        Option::None => Option::None,
    }
}

/// A whole DNS message: header, the four sections, and the OPT apart.
#[derive(Clone, Debug)]
pub struct Message {
    head: Header,
    questions: Vec<Question>,
    answers: Vec<ResourceRecord>,
    authority: Vec<ResourceRecord>,
    additional: Vec<ResourceRecord>,
    pub opt: Option<OptRecord>,
}

impl View for Message {
    type V = MessageV;

    closed spec fn view(&self) -> MessageV {
        MessageV {
            head: self.head,
            questions: qs_view(self.questions@),
            answers: rs_view(self.answers@),
            authority: rs_view(self.authority@),
            additional: rs_view(self.additional@),
            opt: opt_view(self.opt),
        }
    }
}

impl Message {
    pub open spec fn wf(&self) -> bool {
        valid_message(self@)
    }

    /// Encodes the message: header, counts taken from the in-memory section
    /// sizes (the OPT counts toward the additional section), each section in
    /// order, and the OPT pseudo-record last. Names are not compressed.
    #[verifier::loop_isolation(false)]
    #[verifier::rlimit(100)]
    #[verifier::spinoff_prover]
    pub fn serialize(&self) -> (r: Result<Vec<u8>, Error>)
        requires
            self.wf(),
        ensures
            match r {
                Ok(b) => b@ == message_bytes(self@),
                Err(_) => false,
            },
    {
        let mut out: Vec<u8> = Vec::new();
        let hr = self.head.serialize(&mut out);
        push_u16(&mut out, self.questions.len() as u16);
        push_u16(&mut out, self.answers.len() as u16);
        push_u16(&mut out, self.authority.len() as u16);
        let arcount: usize = self.additional.len() + (match &self.opt {
            Option::Some(_) => 1usize,
            Option::None => 0usize,
        });
        push_u16(&mut out, arcount as u16);
        let ghost before_sections = out@;
        let mut i: usize = 0;
        proof {
            assert(qs_view(self.questions@).subrange(0, 0) =~= Seq::<QuestionV>::empty());
        }
        while i < self.questions.len()
            invariant
                i <= self.questions@.len(),
                out@ == before_sections + questions_bytes(
                    qs_view(self.questions@).subrange(0, i as int),
                ),
            decreases self.questions@.len() - i,
        {
            let ghost prefix = qs_view(self.questions@).subrange(0, i as int);
            proof {
                assert(self@.questions[i as int] == self.questions@[i as int]@);
            }
            let qr = self.questions[i].serialize(&mut out);
            proof {
                assert(qs_view(self.questions@).subrange(0, i + 1) =~= prefix.push(
                    self.questions@[i as int]@,
                ));
                lemma_questions_bytes_push(prefix, self.questions@[i as int]@);
            }
            i += 1;
        }
        proof {
            assert(qs_view(self.questions@).subrange(0, self.questions@.len() as int) =~= qs_view(
                self.questions@,
            ));
        }
        let ghost before_answers = out@;
        let mut i: usize = 0;
        proof {
            assert(rs_view(self.answers@).subrange(0, 0) =~= Seq::<RecordV>::empty());
        }
        while i < self.answers.len()
            invariant
                i <= self.answers@.len(),
                out@ == before_answers + records_bytes(
                    rs_view(self.answers@).subrange(0, i as int),
                ),
            decreases self.answers@.len() - i,
        {
            let ghost prefix = rs_view(self.answers@).subrange(0, i as int);
            proof {
                assert(self@.answers[i as int] == self.answers@[i as int]@);
            }
            let ar = self.answers[i].serialize(&mut out);
            proof {
                assert(rs_view(self.answers@).subrange(0, i + 1) =~= prefix.push(
                    self.answers@[i as int]@,
                ));
                lemma_records_bytes_push(prefix, self.answers@[i as int]@);
            }
            i += 1;
        }
        proof {
            assert(rs_view(self.answers@).subrange(0, self.answers@.len() as int) =~= rs_view(
                self.answers@,
            ));
        }
        let ghost before_authority = out@;
        let mut i: usize = 0;
        proof {
            assert(rs_view(self.authority@).subrange(0, 0) =~= Seq::<RecordV>::empty());
        }
        while i < self.authority.len()
            invariant
                i <= self.authority@.len(),
                out@ == before_authority + records_bytes(
                    rs_view(self.authority@).subrange(0, i as int),
                ),
            decreases self.authority@.len() - i,
        {
            let ghost prefix = rs_view(self.authority@).subrange(0, i as int);
            proof {
                assert(self@.authority[i as int] == self.authority@[i as int]@);
            }
            let ar = self.authority[i].serialize(&mut out);
            proof {
                assert(rs_view(self.authority@).subrange(0, i + 1) =~= prefix.push(
                    self.authority@[i as int]@,
                ));
                lemma_records_bytes_push(prefix, self.authority@[i as int]@);
            }
            i += 1;
        }
        proof {
            assert(rs_view(self.authority@).subrange(0, self.authority@.len() as int) =~= rs_view(
                self.authority@,
            ));
        }
        let ghost before_additional = out@;
        let mut i: usize = 0;
        proof {
            assert(rs_view(self.additional@).subrange(0, 0) =~= Seq::<RecordV>::empty());
        }
        while i < self.additional.len()
            invariant
                i <= self.additional@.len(),
                out@ == before_additional + records_bytes(
                    rs_view(self.additional@).subrange(0, i as int),
                ),
            decreases self.additional@.len() - i,
        {
            let ghost prefix = rs_view(self.additional@).subrange(0, i as int);
            proof {
                assert(self@.additional[i as int] == self.additional@[i as int]@);
            }
            let ar = self.additional[i].serialize(&mut out);
            proof {
                assert(rs_view(self.additional@).subrange(0, i + 1) =~= prefix.push(
                    self.additional@[i as int]@,
                ));
                lemma_records_bytes_push(prefix, self.additional@[i as int]@);
            }
            i += 1;
        }
        proof {
            assert(rs_view(self.additional@).subrange(0, self.additional@.len() as int)
                =~= rs_view(self.additional@));
        }
        match &self.opt {
            Option::Some(o) => {
                let or = o.serialize(&mut out);
            },
            Option::None => {},
        }
        proof {
            assert(out@ =~= message_bytes(self@));
        }
        Ok(out)
    }
}

/// Questions already read, prepended to the rest of a section outcome.
pub open spec fn prepend_qs(acc: Seq<QuestionV>, r: Result<(Seq<QuestionV>, int), Error>) -> Result<
    (Seq<QuestionV>, int),
    Error,
> {
    match r {
        Ok(t) => Ok((acc + t.0, t.1)),
        Err(e) => Err(e),
    }
}

/// Records already read, prepended to the rest of a section outcome.
pub open spec fn prepend_rs(acc: Seq<RecordV>, r: Result<(Seq<RecordV>, int), Error>) -> Result<
    (Seq<RecordV>, int),
    Error,
> {
    match r {
        Ok(t) => Ok((acc + t.0, t.1)),
        Err(e) => Err(e),
    }
}

/// Additional records already read, prepended to the rest of that section's
/// outcome; the OPT state rides along unchanged.
pub open spec fn prepend_addl(
    acc: Seq<RecordV>,
    r: Result<(Seq<RecordV>, Option<OptV>, int), Error>,
) -> Result<(Seq<RecordV>, Option<OptV>, int), Error> {
    match r {
        Ok(t) => Ok((acc + t.0, t.1, t.2)),
        Err(e) => Err(e),
    }
}

proof fn lemma_prepend_qs_assoc(
    a: Seq<QuestionV>,
    b: Seq<QuestionV>,
    r: Result<(Seq<QuestionV>, int), Error>,
)
    ensures
        prepend_qs(a, prepend_qs(b, r)) == prepend_qs(a + b, r),
{
    match r {
        Ok(t) => {
            assert(a + (b + t.0) =~= (a + b) + t.0);
        },
        Err(_) => {},
    }
}

proof fn lemma_prepend_rs_assoc(
    a: Seq<RecordV>,
    b: Seq<RecordV>,
    r: Result<(Seq<RecordV>, int), Error>,
)
    ensures
        prepend_rs(a, prepend_rs(b, r)) == prepend_rs(a + b, r),
{
    match r {
        Ok(t) => {
            assert(a + (b + t.0) =~= (a + b) + t.0);
        },
        Err(_) => {},
    }
}

proof fn lemma_prepend_addl_assoc(
    a: Seq<RecordV>,
    b: Seq<RecordV>,
    r: Result<(Seq<RecordV>, Option<OptV>, int), Error>,
)
    ensures
        prepend_addl(a, prepend_addl(b, r)) == prepend_addl(a + b, r),
{
    match r {
        Ok(t) => {
            assert(a + (b + t.0) =~= (a + b) + t.0);
        },
        Err(_) => {},
    }
}

impl Message {
    /// Decodes a whole message from a byte buffer: header, counts, the
    /// question, answer and authority sections, then the additional section
    /// on the OPT-aware path. Trailing bytes after the last section are
    /// ignored; a decoder only owes the sections the counts announce.
    #[verifier::loop_isolation(false)]
    #[verifier::rlimit(100)]
    #[verifier::spinoff_prover]
    pub fn parse(data: &[u8]) -> (r: Result<Message, Error>)
        ensures
            match r {
                Ok(m) => spec_parse_message(data@) == Ok::<MessageV, Error>(m@) && m.wf(),
                Err(e) => spec_parse_message(data@) == Err::<MessageV, Error>(e),
            },
    {
        let ghost d = data@;
        if data.len() < 12 {
            return Err(Error::IoError);
        }
        let (head, _hp) = match Header::parse(data, 0) {
            Ok(t) => t,
            Err(e) => {
                return Err(e);
            },
        };
        let (qd, _p) = match read_u16(data, 4) {
            Ok(t) => t,
            Err(e) => {
                return Err(e);
            },
        };
        let (an, _p) = match read_u16(data, 6) {
            Ok(t) => t,
            Err(e) => {
                return Err(e);
            },
        };
        let (ns, _p) = match read_u16(data, 8) {
            Ok(t) => t,
            Err(e) => {
                return Err(e);
            },
        };
        let (ar, _p) = match read_u16(data, 10) {
            Ok(t) => t,
            Err(e) => {
                return Err(e);
            },
        };
        let mut p: usize = 12;

        let mut questions: Vec<Question> = Vec::new();
        let mut k: usize = 0;
        let qdn = qd as usize;
        proof {
            assert(qs_view(questions@) + Seq::<QuestionV>::empty() =~= qs_view(questions@));
            assert(qs_view(questions@) =~= Seq::<QuestionV>::empty());
        }
        while k < qdn
            invariant
                k <= qdn,
                questions@.len() == k,
                p <= d.len(),
                forall|i: int| 0 <= i < questions@.len() ==> (#[trigger] questions@[i]).wf(),
                spec_parse_questions(d, 12, qd as nat) == prepend_qs(
                    qs_view(questions@),
                    spec_parse_questions(d, p as int, (qdn - k) as nat),
                ),
            decreases qdn - k,
        {
            let ghost acc = qs_view(questions@);
            let ghost oldp = p as int;
            let ghost n0 = (qdn - k) as nat;
            match Question::parse(data, p) {
                Ok((q, np)) => {
                    proof {
                        assert(spec_parse_questions(d, oldp, n0) == prepend_qs(
                            seq![q@],
                            spec_parse_questions(d, np as int, (n0 - 1) as nat),
                        ));
                        lemma_prepend_qs_assoc(
                            acc,
                            seq![q@],
                            spec_parse_questions(d, np as int, (n0 - 1) as nat),
                        );
                    }
                    questions.push(q);
                    proof {
                        assert(qs_view(questions@) =~= acc + seq![q@]);
                    }
                    p = np;
                    k += 1;
                },
                Err(e) => {
                    return Err(e);
                },
            }
        }
        proof {
            assert(qs_view(questions@) + Seq::<QuestionV>::empty() =~= qs_view(questions@));
        }

        let mut answers: Vec<ResourceRecord> = Vec::new();
        let mut k: usize = 0;
        let ann = an as usize;
        let ghost answers_start = p as int;
        proof {
            assert(rs_view(answers@) =~= Seq::<RecordV>::empty());
        }
        while k < ann
            invariant
                k <= ann,
                answers@.len() == k,
                p <= d.len(),
                forall|i: int| 0 <= i < answers@.len() ==> (#[trigger] answers@[i]).wf(),
                spec_parse_records(d, answers_start, an as nat) == prepend_rs(
                    rs_view(answers@),
                    spec_parse_records(d, p as int, (ann - k) as nat),
                ),
            decreases ann - k,
        {
            let ghost acc = rs_view(answers@);
            let ghost oldp = p as int;
            let ghost n0 = (ann - k) as nat;
            match ResourceRecord::parse(data, p) {
                Ok((rec, np)) => {
                    proof {
                        assert(spec_parse_records(d, oldp, n0) == prepend_rs(
                            seq![rec@],
                            spec_parse_records(d, np as int, (n0 - 1) as nat),
                        ));
                        lemma_prepend_rs_assoc(
                            acc,
                            seq![rec@],
                            spec_parse_records(d, np as int, (n0 - 1) as nat),
                        );
                    }
                    answers.push(rec);
                    proof {
                        assert(rs_view(answers@) =~= acc + seq![rec@]);
                    }
                    p = np;
                    k += 1;
                },
                Err(e) => {
                    return Err(e);
                },
            }
        }
        proof {
            assert(rs_view(answers@) + Seq::<RecordV>::empty() =~= rs_view(answers@));
        }

        let mut authority: Vec<ResourceRecord> = Vec::new();
        let mut k: usize = 0;
        let nsn = ns as usize;
        let ghost authority_start = p as int;
        proof {
            assert(rs_view(authority@) =~= Seq::<RecordV>::empty());
        }
        while k < nsn
            invariant
                k <= nsn,
                authority@.len() == k,
                p <= d.len(),
                forall|i: int| 0 <= i < authority@.len() ==> (#[trigger] authority@[i]).wf(),
                spec_parse_records(d, authority_start, ns as nat) == prepend_rs(
                    rs_view(authority@),
                    spec_parse_records(d, p as int, (nsn - k) as nat),
                ),
            decreases nsn - k,
        {
            let ghost acc = rs_view(authority@);
            let ghost oldp = p as int;
            let ghost n0 = (nsn - k) as nat;
            match ResourceRecord::parse(data, p) {
                Ok((rec, np)) => {
                    proof {
                        assert(spec_parse_records(d, oldp, n0) == prepend_rs(
                            seq![rec@],
                            spec_parse_records(d, np as int, (n0 - 1) as nat),
                        ));
                        lemma_prepend_rs_assoc(
                            acc,
                            seq![rec@],
                            spec_parse_records(d, np as int, (n0 - 1) as nat),
                        );
                    }
                    authority.push(rec);
                    proof {
                        assert(rs_view(authority@) =~= acc + seq![rec@]);
                    }
                    p = np;
                    k += 1;
                },
                Err(e) => {
                    return Err(e);
                },
            }
        }
        proof {
            assert(rs_view(authority@) + Seq::<RecordV>::empty() =~= rs_view(authority@));
        }

        let mut additional: Vec<ResourceRecord> = Vec::new();
        let mut opt: Option<OptRecord> = None;
        let mut k: usize = 0;
        let arn = ar as usize;
        let ghost additional_start = p as int;
        proof {
            assert(rs_view(additional@) =~= Seq::<RecordV>::empty());
        }
        while k < arn
            invariant
                k <= arn,
                additional@.len() + (match opt {
                    Option::Some(_) => 1int,
                    Option::None => 0int,
                }) <= k,
                p <= d.len(),
                forall|i: int| 0 <= i < additional@.len() ==> (#[trigger] additional@[i]).wf(),
                match opt {
                    Option::Some(o) => o.wf(),
                    Option::None => true,
                },
                spec_parse_additionals(d, additional_start, ar as nat, Option::None)
                    == prepend_addl(
                    rs_view(additional@),
                    spec_parse_additionals(d, p as int, (arn - k) as nat, opt_view(opt)),
                ),
            decreases arn - k,
        {
            let ghost acc = rs_view(additional@);
            let ghost oldp = p as int;
            let ghost n0 = (arn - k) as nat;
            match ResourceRecord::parse_additional(data, p) {
                Ok((entry, np)) => {
                    match entry {
                        ResourceRecordAddl::RR(rec) => {
                            proof {
                                assert(spec_parse_additionals(d, oldp, n0, opt_view(opt))
                                    == prepend_addl(
                                    seq![rec@],
                                    spec_parse_additionals(
                                        d,
                                        np as int,
                                        (n0 - 1) as nat,
                                        opt_view(opt),
                                    ),
                                ));
                                lemma_prepend_addl_assoc(
                                    acc,
                                    seq![rec@],
                                    spec_parse_additionals(
                                        d,
                                        np as int,
                                        (n0 - 1) as nat,
                                        opt_view(opt),
                                    ),
                                );
                            }
                            additional.push(rec);
                            proof {
                                assert(rs_view(additional@) =~= acc + seq![rec@]);
                            }
                            p = np;
                            k += 1;
                        },
                        ResourceRecordAddl::OPT(o) => {
                            match &opt {
                                Option::Some(_) => {
                                    return Err(Error::MultipleOpt);
                                },
                                Option::None => {},
                            }
                            opt = Some(o);
                            p = np;
                            k += 1;
                        },
                    }
                },
                Err(e) => {
                    return Err(e);
                },
            }
        }
        proof {
            assert(rs_view(additional@) + Seq::<RecordV>::empty() =~= rs_view(additional@));
        }
        Ok(Message { head, questions, answers, authority, additional, opt })
    }
}

/// A subrange known to spell a concatenation splits into its two halves.
proof fn lemma_subrange_concat(d: Seq<u8>, pos: int, x: Seq<u8>, y: Seq<u8>)
    requires
        0 <= pos,
        pos + x.len() + y.len() <= d.len(),
        d.subrange(pos, pos + x.len() + y.len()) == x + y,
    ensures
        d.subrange(pos, pos + x.len()) == x,
        d.subrange(pos + x.len(), pos + x.len() + y.len()) == y,
{
    let whole = d.subrange(pos, pos + x.len() + y.len());
    assert forall|k: int| 0 <= k < x.len() implies d.subrange(pos, pos + x.len())[k] == x[k] by {
        assert(whole[k] == d[pos + k]);
        assert((x + y)[k] == x[k]);
        assert(d.subrange(pos, pos + x.len())[k] == d[pos + k]);
    }
    assert(d.subrange(pos, pos + x.len()) =~= x);
    assert forall|k: int| 0 <= k < y.len() implies d.subrange(
        pos + x.len(),
        pos + x.len() + y.len(),
    )[k] == y[k] by {
        assert(whole[x.len() + k] == d[pos + x.len() + k]);
        assert((x + y)[x.len() + k] == y[k]);
        assert(d.subrange(pos + x.len(), pos + x.len() + y.len())[k] == d[pos + x.len() + k]);
    }
    assert(d.subrange(pos + x.len(), pos + x.len() + y.len()) =~= y);
}

/// Parsing the serialized concatenation of well-formed questions restores
/// them all, in order.
pub proof fn lemma_parse_questions_of_serialized(d: Seq<u8>, pos: int, qs: Seq<QuestionV>)
    requires
        forall|i: int| 0 <= i < qs.len() ==> valid_question(#[trigger] qs[i]),
        0 <= pos,
        pos + questions_bytes(qs).len() <= d.len(),
        d.subrange(pos, pos + questions_bytes(qs).len()) == questions_bytes(qs),
    ensures
        spec_parse_questions(d, pos, qs.len() as nat) == Ok::<(Seq<QuestionV>, int), Error>(
            (qs, pos + questions_bytes(qs).len()),
        ),
    decreases qs.len(),
{
    if qs.len() == 0 {
        assert(qs =~= Seq::<QuestionV>::empty());
    } else {
        let q0 = qs[0];
        let rest = qs.drop_first();
        let qb = question_bytes(q0);
        let sb = questions_bytes(qs);
        assert(sb == qb + questions_bytes(rest));
        lemma_subrange_concat(d, pos, qb, questions_bytes(rest));
        crate::question::lemma_parse_question_of_serialized(d, pos, q0);
        lemma_parse_questions_of_serialized(d, pos + qb.len(), rest);
        assert(seq![q0] + rest =~= qs);
    }
}

/// Parsing the serialized concatenation of well-formed records restores
/// them all, in order.
pub proof fn lemma_parse_records_of_serialized(d: Seq<u8>, pos: int, rs: Seq<RecordV>)
    requires
        forall|i: int| 0 <= i < rs.len() ==> valid_record(#[trigger] rs[i]),
        0 <= pos,
        pos + records_bytes(rs).len() <= d.len(),
        d.subrange(pos, pos + records_bytes(rs).len()) == records_bytes(rs),
    ensures
        spec_parse_records(d, pos, rs.len() as nat) == Ok::<(Seq<RecordV>, int), Error>(
            (rs, pos + records_bytes(rs).len()),
        ),
    decreases rs.len(),
{
    if rs.len() == 0 {
        assert(rs =~= Seq::<RecordV>::empty());
    } else {
        let r0 = rs[0];
        let rest = rs.drop_first();
        let rb = record_bytes(r0);
        let sb = records_bytes(rs);
        assert(sb == rb + records_bytes(rest));
        lemma_subrange_concat(d, pos, rb, records_bytes(rest));
        crate::rr::lemma_parse_record_of_serialized(d, pos, r0);
        lemma_parse_records_of_serialized(d, pos + rb.len(), rest);
        assert(seq![r0] + rest =~= rs);
    }
}

/// The bytes the encoder emits for the additional section: the plain
/// records, then the OPT pseudo-record when present.
pub open spec fn additional_bytes(rs: Seq<RecordV>, o: Option<OptV>) -> Seq<u8> {
    records_bytes(rs) + (match o {
        Option::Some(ov) => opt_bytes(ov),
        Option::None => Seq::<u8>::empty(),
    })
}

/// Parsing just the OPT tail of the additional section (or nothing at all)
/// yields no records and surfaces the OPT.
#[verifier::rlimit(100)]
#[verifier::spinoff_prover]
proof fn lemma_parse_additionals_opt_tail(d: Seq<u8>, pos: int, o: Option<OptV>)
    requires
        match o {
            Option::Some(ov) => valid_opt(ov),
            Option::None => true,
        },
        0 <= pos,
        pos + additional_bytes(Seq::<RecordV>::empty(), o).len() <= d.len(),
        d.subrange(pos, pos + additional_bytes(Seq::<RecordV>::empty(), o).len())
            == additional_bytes(Seq::<RecordV>::empty(), o),
    ensures
        spec_parse_additionals(d, pos, opt_count(o) as nat, Option::None) == Ok::<
            (Seq<RecordV>, Option<OptV>, int),
            Error,
        >(
            (Seq::<RecordV>::empty(), o, pos + additional_bytes(Seq::<RecordV>::empty(), o).len()),
        ),
{
    assert(records_bytes(Seq::<RecordV>::empty()) =~= Seq::<u8>::empty());
    match o {
        Option::Some(ov) => {
            assert(additional_bytes(Seq::<RecordV>::empty(), o) =~= opt_bytes(ov));
            crate::rr::lemma_parse_additional_of_opt(d, pos, ov);
            let end = pos + opt_bytes(ov).len();
            assert(spec_parse_additionals(d, end, 0nat, Option::Some(ov)) == Ok::<
                (Seq<RecordV>, Option<OptV>, int),
                Error,
            >((Seq::<RecordV>::empty(), Option::Some(ov), end)));
        },
        Option::None => {
        },
    }
}

/// Parsing the serialized additional section restores its records and its
/// OPT, and never trips over a false OPT signature.
#[verifier::rlimit(100)]
#[verifier::spinoff_prover]
pub proof fn lemma_parse_additionals_of_serialized(
    d: Seq<u8>,
    pos: int,
    rs: Seq<RecordV>,
    o: Option<OptV>,
)
    requires
        forall|i: int| 0 <= i < rs.len() ==> valid_record(#[trigger] rs[i]),
        match o {
            Option::Some(ov) => valid_opt(ov),
            Option::None => true,
        },
        0 <= pos,
        pos + additional_bytes(rs, o).len() <= d.len(),
        d.subrange(pos, pos + additional_bytes(rs, o).len()) == additional_bytes(rs, o),
    ensures
        spec_parse_additionals(d, pos, (rs.len() + opt_count(o)) as nat, Option::None) == Ok::<
            (Seq<RecordV>, Option<OptV>, int),
            Error,
        >((rs, o, pos + additional_bytes(rs, o).len())),
    decreases rs.len(),
{
    if rs.len() == 0 {
        assert(rs =~= Seq::<RecordV>::empty());
        lemma_parse_additionals_opt_tail(d, pos, o);
    } else {
        let r0 = rs[0];
        let rest = rs.drop_first();
        let rb = record_bytes(r0);
        let tail = additional_bytes(rest, o);
        assert(records_bytes(rs) == rb + records_bytes(rest));
        assert(additional_bytes(rs, o) =~= rb + tail) by {
            assert(records_bytes(rs) + (match o {
                Option::Some(ov) => opt_bytes(ov),
                Option::None => Seq::<u8>::empty(),
            }) =~= (rb + records_bytes(rest)) + (match o {
                Option::Some(ov) => opt_bytes(ov),
                Option::None => Seq::<u8>::empty(),
            }));
        }
        lemma_subrange_concat(d, pos, rb, tail);
        crate::rr::lemma_parse_additional_of_record(d, pos, r0);
        lemma_parse_additionals_of_serialized(d, pos + rb.len(), rest, o);
        assert(seq![r0] + rest =~= rs);
    }
}

/// The wire form of a message splits at the section boundaries, and the
/// six leading 16-bit words read back as the header fields and counts.
#[verifier::rlimit(100)]
#[verifier::spinoff_prover]
proof fn lemma_message_bytes_split(m: MessageV)
    requires
        valid_message(m),
    ensures
        ({
            let d = message_bytes(m);
            let qb = questions_bytes(m.questions);
            let ab = records_bytes(m.answers);
            let aub = records_bytes(m.authority);
            let adob = additional_bytes(m.additional, m.opt);
            &&& d.len() == 12 + qb.len() + ab.len() + aub.len() + adob.len()
            &&& be16_val(d[0], d[1]) == m.head.id
            &&& be16_val(d[2], d[3]) == header_flags(m.head)
            &&& be16_val(d[4], d[5]) == m.questions.len() as u16
            &&& be16_val(d[6], d[7]) == m.answers.len() as u16
            &&& be16_val(d[8], d[9]) == m.authority.len() as u16
            &&& be16_val(d[10], d[11]) == arcount_of(m)
            &&& d.subrange(12, 12 + qb.len() as int) == qb
            &&& d.subrange(12 + qb.len() as int, 12 + qb.len() as int + ab.len() as int) == ab
            &&& d.subrange(
                12 + qb.len() as int + ab.len() as int,
                12 + qb.len() as int + ab.len() as int + aub.len() as int,
            ) == aub
            &&& d.subrange(12 + qb.len() as int + ab.len() as int + aub.len() as int, d.len() as int) == adob
        }),
{
    let d = message_bytes(m);
    let idb = be16_bytes(m.head.id);
    let fb = be16_bytes(header_flags(m.head));
    let qdb = be16_bytes(m.questions.len() as u16);
    let anb = be16_bytes(m.answers.len() as u16);
    let nsb = be16_bytes(m.authority.len() as u16);
    let arb = be16_bytes(arcount_of(m));
    let qb = questions_bytes(m.questions);
    let ab = records_bytes(m.answers);
    let aub = records_bytes(m.authority);
    let adob = additional_bytes(m.additional, m.opt);
    assert(d =~= idb + fb + qdb + anb + nsb + arb + qb + ab + aub + adob);
    assert(d.subrange(0, d.len() as int) =~= d);
    lemma_subrange_concat(d, 0, idb + fb + qdb + anb + nsb + arb + qb + ab + aub, adob);
    lemma_subrange_concat(d, 0, idb + fb + qdb + anb + nsb + arb + qb + ab, aub);
    lemma_subrange_concat(d, 0, idb + fb + qdb + anb + nsb + arb + qb, ab);
    lemma_subrange_concat(d, 0, idb + fb + qdb + anb + nsb + arb, qb);
    lemma_subrange_concat(d, 0, idb + fb + qdb + anb + nsb, arb);
    lemma_subrange_concat(d, 0, idb + fb + qdb + anb, nsb);
    lemma_subrange_concat(d, 0, idb + fb + qdb, anb);
    lemma_subrange_concat(d, 0, idb + fb, qdb);
    lemma_subrange_concat(d, 0, idb, fb);
    assert(d[0] == idb[0] && d[1] == idb[1]) by {
        assert(d.subrange(0, 2)[0] == d[0] && d.subrange(0, 2)[1] == d[1]);
    }
    assert(d[2] == fb[0] && d[3] == fb[1]) by {
        assert(d.subrange(2, 4)[0] == d[2] && d.subrange(2, 4)[1] == d[3]);
    }
    assert(d[4] == qdb[0] && d[5] == qdb[1]) by {
        assert(d.subrange(4, 6)[0] == d[4] && d.subrange(4, 6)[1] == d[5]);
    }
    assert(d[6] == anb[0] && d[7] == anb[1]) by {
        assert(d.subrange(6, 8)[0] == d[6] && d.subrange(6, 8)[1] == d[7]);
    }
    assert(d[8] == nsb[0] && d[9] == nsb[1]) by {
        assert(d.subrange(8, 10)[0] == d[8] && d.subrange(8, 10)[1] == d[9]);
    }
    assert(d[10] == arb[0] && d[11] == arb[1]) by {
        assert(d.subrange(10, 12)[0] == d[10] && d.subrange(10, 12)[1] == d[11]);
    }
    crate::wire::lemma_be16_roundtrip(m.head.id);
    crate::wire::lemma_be16_roundtrip(header_flags(m.head));
    crate::wire::lemma_be16_roundtrip(m.questions.len() as u16);
    crate::wire::lemma_be16_roundtrip(m.answers.len() as u16);
    crate::wire::lemma_be16_roundtrip(m.authority.len() as u16);
    crate::wire::lemma_be16_roundtrip(arcount_of(m));
}

/// Semantic round trip: a well-formed message, encoded and decoded again,
/// comes back equal — same header, same section contents in order, same OPT
/// presence and fields. The encoder emits no compression, so equality is of
/// the structures, not of the input buffer.
#[verifier::rlimit(100)]
#[verifier::spinoff_prover]
pub proof fn lemma_message_roundtrip(m: MessageV)
    requires
        valid_message(m),
    ensures
        spec_parse_message(message_bytes(m)) == Ok::<MessageV, Error>(m),
{
    let d = message_bytes(m);
    let qb = questions_bytes(m.questions);
    let ab = records_bytes(m.answers);
    let aub = records_bytes(m.authority);
    lemma_message_bytes_split(m);
    lemma_header_flags_roundtrip(m.head);
    lemma_parse_questions_of_serialized(d, 12, m.questions);
    lemma_parse_records_of_serialized(d, 12 + qb.len() as int, m.answers);
    lemma_parse_records_of_serialized(d, 12 + qb.len() as int + ab.len() as int, m.authority);
    lemma_parse_additionals_of_serialized(
        d,
        12 + qb.len() as int + ab.len() as int + aub.len() as int,
        m.additional,
        m.opt,
    );
    match spec_parse_message(d) {
        Ok(mv) => {
            assert(mv =~= m);
        },
        Err(_) => {
            assert(false);
        },
    }
}

/// Encoding a message that carries an OPT and decoding the result yields a
/// message with exactly that one OPT again.
pub proof fn lemma_opt_roundtrip(m: MessageV)
    requires
        valid_message(m),
        m.opt is Some,
    ensures
        spec_parse_message(message_bytes(m)) matches Ok(mv) && mv.opt == m.opt,
{
    lemma_message_roundtrip(m);
}

impl Message {
    /// An empty message under a copy of the given header.
    pub fn from_header(h: &Header) -> (r: Message)
        ensures
            r@.head == *h,
            r@.questions =~= Seq::<QuestionV>::empty(),
            r@.answers =~= Seq::<RecordV>::empty(),
            r@.authority =~= Seq::<RecordV>::empty(),
            r@.additional =~= Seq::<RecordV>::empty(),
            r@.opt is None,
            h.wf() ==> r.wf(),
    {
        let m = Message {
            head: *h,
            questions: Vec::new(),
            answers: Vec::new(),
            authority: Vec::new(),
            additional: Vec::new(),
            opt: None,
        };
        proof {
            assert(m@.questions =~= Seq::<QuestionV>::empty());
            assert(m@.answers =~= Seq::<RecordV>::empty());
            assert(m@.authority =~= Seq::<RecordV>::empty());
            assert(m@.additional =~= Seq::<RecordV>::empty());
        }
        m
    }

    /// An empty standard query: QR clear, recursion desired.
    pub fn new_query(id: u16) -> (r: Message)
        ensures
            r@.head == (Header {
                id,
                query: true,
                opcode: Opcode::StandardQuery,
                authoritative: false,
                truncated: false,
                recursion_desired: true,
                recursion_available: false,
                authenticated_data: false,
                checking_disabled: false,
                response_code: ResponseCode::NoError,
            }),
            r@.questions =~= Seq::<QuestionV>::empty(),
            r@.answers =~= Seq::<RecordV>::empty(),
            r@.authority =~= Seq::<RecordV>::empty(),
            r@.additional =~= Seq::<RecordV>::empty(),
            r@.opt is None,
            r.wf(),
    {
        let head = Header {
            id,
            query: true,
            opcode: Opcode::StandardQuery,
            authoritative: false,
            truncated: false,
            recursion_desired: true,
            recursion_available: false,
            authenticated_data: false,
            checking_disabled: false,
            response_code: ResponseCode::NoError,
        };
        Message::from_header(&head)
    }

    /// An empty response shell with recursion available.
    pub fn new_response(id: u16) -> (r: Message)
        ensures
            r@.head == (Header {
                id,
                query: true,
                opcode: Opcode::StandardQuery,
                authoritative: false,
                truncated: false,
                recursion_desired: false,
                recursion_available: true,
                authenticated_data: false,
                checking_disabled: false,
                response_code: ResponseCode::NoError,
            }),
            r@.questions =~= Seq::<QuestionV>::empty(),
            r@.answers =~= Seq::<RecordV>::empty(),
            r@.authority =~= Seq::<RecordV>::empty(),
            r@.additional =~= Seq::<RecordV>::empty(),
            r@.opt is None,
            r.wf(),
    {
        let head = Header {
            id,
            query: true,
            opcode: Opcode::StandardQuery,
            authoritative: false,
            truncated: false,
            recursion_desired: false,
            recursion_available: true,
            authenticated_data: false,
            checking_disabled: false,
            response_code: ResponseCode::NoError,
        };
        Message::from_header(&head)
    }

    /// An empty error response carrying the given response code.
    pub fn new_error(id: u16, rc: ResponseCode) -> (r: Message)
        ensures
            r@.head == (Header {
                id,
                query: false,
                opcode: Opcode::StandardQuery,
                authoritative: false,
                truncated: false,
                recursion_desired: false,
                recursion_available: true,
                authenticated_data: false,
                checking_disabled: false,
                response_code: rc,
            }),
            r@.questions =~= Seq::<QuestionV>::empty(),
            r@.answers =~= Seq::<RecordV>::empty(),
            r@.authority =~= Seq::<RecordV>::empty(),
            r@.additional =~= Seq::<RecordV>::empty(),
            r@.opt is None,
            (rc.spec_code() <= 15 && ResponseCode::spec_from(rc.spec_code()) == rc) ==> r.wf(),
    {
        let head = Header {
            id,
            query: false,
            opcode: Opcode::StandardQuery,
            authoritative: false,
            truncated: false,
            recursion_desired: false,
            recursion_available: true,
            authenticated_data: false,
            checking_disabled: false,
            response_code: rc,
        };
        Message::from_header(&head)
    }

    pub fn id(&self) -> (r: u16)
        ensures
            r == self@.head.id,
    {
        self.head.id
    }

    pub fn set_id(&mut self, id: u16)
        ensures
            final(self)@ == (MessageV { head: Header { id, ..old(self)@.head }, ..old(self)@ }),
    {
        self.head.id = id;
    }

    pub fn is_request(&self) -> (r: bool)
        ensures
            r == self@.head.query,
    {
        self.head.query
    }

    pub fn is_response(&self) -> (r: bool)
        ensures
            r == !self@.head.query,
    {
        !self.head.query
    }

    pub fn is_truncated(&self) -> (r: bool)
        ensures
            r == self@.head.truncated,
    {
        self.head.truncated
    }

    pub fn is_authoritative(&self) -> (r: bool)
        ensures
            r == self@.head.authoritative,
    {
        self.head.authoritative
    }

    pub fn recursion_desired(&self) -> (r: bool)
        ensures
            r == self@.head.recursion_desired,
    {
        self.head.recursion_desired
    }

    pub fn recursion_available(&self) -> (r: bool)
        ensures
            r == self@.head.recursion_available,
    {
        self.head.recursion_available
    }

    pub fn opcode(&self) -> (r: Opcode)
        ensures
            r == self@.head.opcode,
    {
        self.head.opcode
    }

    pub fn response_code(&self) -> (r: ResponseCode)
        ensures
            r == self@.head.response_code,
    {
        self.head.response_code
    }

    pub fn num_questions(&self) -> (r: usize)
        ensures
            r == self@.questions.len(),
    {
        self.questions.len()
    }

    pub fn num_answers(&self) -> (r: usize)
        ensures
            r == self@.answers.len(),
    {
        self.answers.len()
    }

    pub fn num_authority(&self) -> (r: usize)
        ensures
            r == self@.authority.len(),
    {
        self.authority.len()
    }

    pub fn num_additional(&self) -> (r: usize)
        ensures
            r == self@.additional.len(),
    {
        self.additional.len()
    }

    pub fn get_question(&self, index: usize) -> (r: Option<&Question>)
        ensures
            match r {
                Option::Some(q) => index < self@.questions.len() && q@ == self@.questions[index as int],
                Option::None => index >= self@.questions.len(),
            },
    {
        if index < self.questions.len() {
            Some(&self.questions[index])
        } else {
            None
        }
    }

    pub fn get_answer(&self, index: usize) -> (r: Option<&ResourceRecord>)
        ensures
            match r {
                Option::Some(a) => index < self@.answers.len() && a@ == self@.answers[index as int],
                Option::None => index >= self@.answers.len(),
            },
    {
        if index < self.answers.len() {
            Some(&self.answers[index])
        } else {
            None
        }
    }

    pub fn get_authority(&self, index: usize) -> (r: Option<&ResourceRecord>)
        ensures
            match r {
                Option::Some(a) => index < self@.authority.len() && a@ == self@.authority[
                    index as int
                ],
                Option::None => index >= self@.authority.len(),
            },
    {
        if index < self.authority.len() {
            Some(&self.authority[index])
        } else {
            None
        }
    }

    pub fn get_additional(&self, index: usize) -> (r: Option<&ResourceRecord>)
        ensures
            match r {
                Option::Some(a) => index < self@.additional.len() && a@ == self@.additional[
                    index as int
                ],
                Option::None => index >= self@.additional.len(),
            },
    {
        if index < self.additional.len() {
            Some(&self.additional[index])
        } else {
            None
        }
    }

    pub fn add_question(&mut self, q: Question)
        requires
            old(self)@.questions.len() < 0xFFFF,
        ensures
            final(self)@ == (MessageV {
                questions: old(self)@.questions.push(q@),
                ..old(self)@
            }),
            old(self).wf() && q.wf() ==> final(self).wf(),
    {
        self.questions.push(q);
        proof {
            assert(self@.questions =~= old(self)@.questions.push(q@));
            assert(self@ =~= (MessageV { questions: old(self)@.questions.push(q@), ..old(
                self,
            )@ }));
        }
    }

    pub fn add_answer(&mut self, rr: ResourceRecord)
        requires
            old(self)@.answers.len() < 0xFFFF,
        ensures
            final(self)@ == (MessageV { answers: old(self)@.answers.push(rr@), ..old(self)@ }),
            old(self).wf() && rr.wf() ==> final(self).wf(),
    {
        self.answers.push(rr);
        proof {
            assert(self@.answers =~= old(self)@.answers.push(rr@));
            assert(self@ =~= (MessageV { answers: old(self)@.answers.push(rr@), ..old(self)@ }));
        }
    }

    pub fn add_authority(&mut self, rr: ResourceRecord)
        requires
            old(self)@.authority.len() < 0xFFFF,
        ensures
            final(self)@ == (MessageV { authority: old(self)@.authority.push(rr@), ..old(
                self,
            )@ }),
            old(self).wf() && rr.wf() ==> final(self).wf(),
    {
        self.authority.push(rr);
        proof {
            assert(self@.authority =~= old(self)@.authority.push(rr@));
            assert(self@ =~= (MessageV { authority: old(self)@.authority.push(rr@), ..old(
                self,
            )@ }));
        }
    }

    pub fn add_additional(&mut self, rr: ResourceRecord)
        requires
            old(self)@.additional.len() + opt_count(old(self)@.opt) < 0xFFFF,
        ensures
            final(self)@ == (MessageV {
                additional: old(self)@.additional.push(rr@),
                ..old(self)@
            }),
            old(self).wf() && rr.wf() ==> final(self).wf(),
    {
        self.additional.push(rr);
        proof {
            assert(self@.additional =~= old(self)@.additional.push(rr@));
            assert(self@ =~= (MessageV { additional: old(self)@.additional.push(rr@), ..old(
                self,
            )@ }));
        }
    }

    pub fn remove_question(&mut self, index: usize) -> (r: Question)
        requires
            index < old(self)@.questions.len(),
        ensures
            r@ == old(self)@.questions[index as int],
            final(self)@ == (MessageV {
                questions: old(self)@.questions.remove(index as int),
                ..old(self)@
            }),
    {
        let q = self.questions.remove(index);
        proof {
            assert(self@.questions =~= old(self)@.questions.remove(index as int));
            assert(self@ =~= (MessageV {
                questions: old(self)@.questions.remove(index as int),
                ..old(self)@
            }));
        }
        q
    }

    pub fn remove_answer(&mut self, index: usize) -> (r: ResourceRecord)
        requires
            index < old(self)@.answers.len(),
        ensures
            r@ == old(self)@.answers[index as int],
            final(self)@ == (MessageV {
                answers: old(self)@.answers.remove(index as int),
                ..old(self)@
            }),
    {
        let a = self.answers.remove(index);
        proof {
            assert(self@.answers =~= old(self)@.answers.remove(index as int));
            assert(self@ =~= (MessageV {
                answers: old(self)@.answers.remove(index as int),
                ..old(self)@
            }));
        }
        a
    }

    pub fn remove_authority(&mut self, index: usize) -> (r: ResourceRecord)
        requires
            index < old(self)@.authority.len(),
        ensures
            r@ == old(self)@.authority[index as int],
            final(self)@ == (MessageV {
                authority: old(self)@.authority.remove(index as int),
                ..old(self)@
            }),
    {
        let a = self.authority.remove(index);
        proof {
            assert(self@.authority =~= old(self)@.authority.remove(index as int));
            assert(self@ =~= (MessageV {
                authority: old(self)@.authority.remove(index as int),
                ..old(self)@
            }));
        }
        a
    }

    pub fn remove_additional(&mut self, index: usize) -> (r: ResourceRecord)
        requires
            index < old(self)@.additional.len(),
        ensures
            r@ == old(self)@.additional[index as int],
            final(self)@ == (MessageV {
                additional: old(self)@.additional.remove(index as int),
                ..old(self)@
            }),
    {
        let a = self.additional.remove(index);
        proof {
            assert(self@.additional =~= old(self)@.additional.remove(index as int));
            assert(self@ =~= (MessageV {
                additional: old(self)@.additional.remove(index as int),
                ..old(self)@
            }));
        }
        a
    }
}

} // verus!
