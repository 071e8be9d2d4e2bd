//! The question section entry: an owner name, a query type and class, and
//! the mDNS unicast-preference bit carried in the top bit of the class.
use vstd::prelude::*;

use crate::enums::Class;
use crate::enums::Type;
use crate::name::name_bytes;
use crate::name::spec_parse_name;
use crate::name::valid_name;
use crate::name::Name;
use crate::enums::class_text;
use crate::enums::lemma_text_ascii;
use crate::enums::push_class_text;
use crate::enums::push_type_text;
use crate::enums::type_text;
use crate::name::ascii_str;
use crate::name::chars_of;
use crate::name::name_text;
use crate::rr::class_word;
use vstd::string::StringExecFns;
use crate::wire::be16_bytes;
use crate::wire::be16_val;
use crate::wire::push_u16;
use crate::wire::read_u16;
use crate::Error;

verus! {

/// The spec-level image of a question.
#[verifier::ext_equal]
pub ghost struct QuestionV {
    pub name: Seq<Seq<u8>>,
    pub prefer_unicast: bool,
    pub qtype: Type,
    pub qclass: Class,
}

/// Well-formedness of a question: a valid name, a class code in the low 15
/// bits that maps back to the same class, and a type that maps back to the
/// same type.
pub open spec fn valid_question(q: QuestionV) -> bool {
    &&& valid_name(q.name)
    &&& q.qclass.spec_code() <= 0x7FFF
    &&& Class::spec_from(q.qclass.spec_code()) == q.qclass
    &&& Type::spec_from(q.qtype.spec_code()) == q.qtype
}

/// The wire form of a question: name, type code, then the class word.
pub open spec fn question_bytes(q: QuestionV) -> Seq<u8> {
    name_bytes(q.name) + be16_bytes(q.qtype.spec_code()) + be16_bytes(
        class_word(q.qclass, q.prefer_unicast),
    )
}

/// What the question reader returns on `d` at `pos`.
pub open spec fn spec_parse_question(d: Seq<u8>, pos: int) -> Result<(QuestionV, int), Error> {
    match spec_parse_name(d, pos) {
        Ok(t) => {
            let p = t.1;
            if p + 4 > d.len() {
                Err(Error::IoError)
            } else {
                let tcode = be16_val(d[p], d[p + 1]);
                let word = be16_val(d[p + 2], d[p + 3]);
                Ok(
                    (QuestionV {
                        name: t.0,
                        prefer_unicast: word >= 0x8000,
                        qtype: Type::spec_from(tcode),
                        qclass: Class::spec_from((word % 0x8000) as u16),
                    }, p + 4),
                )
            }
        },
        Err(e) => Err(e),
    }
}

/// Parsing the wire form of a well-formed question restores it.
pub proof fn lemma_parse_question_of_serialized(d: Seq<u8>, pos: int, q: QuestionV)
    requires
        valid_question(q),
        0 <= pos,
        pos + question_bytes(q).len() <= d.len(),
        d.subrange(pos, pos + question_bytes(q).len()) == question_bytes(q),
    ensures
        spec_parse_question(d, pos) == Ok::<(QuestionV, int), Error>(
            (q, pos + question_bytes(q).len()),
        ),
{
    let nb = name_bytes(q.name);
    let qb = question_bytes(q);
    assert forall|i: int| 0 <= i < qb.len() implies d[pos + i] == qb[i] by {
        assert(d.subrange(pos, pos + qb.len())[i] == d[pos + i]);
    }
    assert forall|k: int| 0 <= k < nb.len() implies d.subrange(pos, pos + nb.len())[k]
        == nb[k] by {
        assert(d[pos + k] == qb[k]);
        assert(qb[k] == nb[k]);
    }
    assert(d.subrange(pos, pos + nb.len()) =~= nb);
    crate::name::lemma_parse_of_serialized_name(d, pos, q.name);
    let p = pos + nb.len();
    let tb = be16_bytes(q.qtype.spec_code());
    let w = class_word(q.qclass, q.prefer_unicast);
    let wb = be16_bytes(w);
    assert(d[p + 0] == qb[nb.len() as int + 0] && qb[nb.len() as int + 0] == tb[0]);
    assert(d[p + 1] == qb[nb.len() as int + 1] && qb[nb.len() as int + 1] == tb[1]);
    assert(d[p + 2] == qb[nb.len() as int + 2] && qb[nb.len() as int + 2] == wb[0]);
    assert(d[p + 3] == qb[nb.len() as int + 3] && qb[nb.len() as int + 3] == wb[1]);
    crate::wire::lemma_be16_roundtrip(q.qtype.spec_code());
    crate::wire::lemma_be16_roundtrip(w);
    vstd::arithmetic::div_mod::lemma_fundamental_div_mod_converse(
        w as int,
        0x8000,
        if q.prefer_unicast {
            1int
        } else {
            0int
        },
        q.qclass.spec_code() as int,
    );
}

/// One entry of the question section.
#[derive(Clone, Debug)]
pub struct Question {
    pub qname: Name,
    pub prefer_unicast: bool,
    pub qtype: Type,
    pub qclass: Class,
}

impl View for Question {
    type V = QuestionV;

    open spec fn view(&self) -> QuestionV {
        QuestionV {
            name: self.qname@,
            prefer_unicast: self.prefer_unicast,
            qtype: self.qtype,
            qclass: self.qclass,
        }
    }
}

impl Question {
    pub open spec fn wf(&self) -> bool {
        valid_question(self@)
    }

    /// The owner name the question asks about.
    pub fn name(&self) -> (r: &Name)
        ensures
            r@ == self@.name,
    {
        &self.qname
    }

    /// The class the question asks in.
    pub fn class(&self) -> (r: Class)
        ensures
            r == self@.qclass,
    {
        self.qclass
    }

    /// The question in one line of text: class, type, then the name.
    pub fn to_string(&self) -> (r: String)
        requires
            self.wf(),
        ensures
            r@ == chars_of(
                class_text(self@.qclass) + seq![32u8] + type_text(self@.qtype) + seq![32u8]
                    + name_text(self@.name),
            ),
    {
        let mut text: Vec<u8> = Vec::new();
        push_class_text(&self.qclass, &mut text);
        text.push(32u8);
        push_type_text(&self.qtype, &mut text);
        text.push(32u8);
        proof {
            lemma_text_ascii(self.qtype, self.qclass);
            assert(text@ =~= class_text(self@.qclass) + seq![32u8] + type_text(self@.qtype)
                + seq![32u8]);
        }
        let mut head = ascii_str(text.as_slice()).to_owned();
        let tail = self.qname.to_string();
        head.append(tail.as_str());
        proof {
            assert(head@ =~= chars_of(
                class_text(self@.qclass) + seq![32u8] + type_text(self@.qtype) + seq![32u8]
                    + name_text(self@.name),
            ));
        }
        head
    }

    /// Reads one question from `data` at `pos`.
    pub fn parse(data: &[u8], pos: usize) -> (r: Result<(Question, usize), Error>)
        ensures
            match r {
                Ok(t) => spec_parse_question(data@, pos as int) == Ok::<(QuestionV, int), Error>(
                    (t.0@, t.1 as int),
                ) && t.0.wf() && t.1 <= data@.len(),
                Err(e) => spec_parse_question(data@, pos as int) == Err::<
                    (QuestionV, int),
                    Error,
                >(e),
            },
    {
        let (qname, p) = match Name::parse(data, pos) {
            Ok(t) => t,
            Err(e) => {
                return Err(e);
            },
        };
        if data.len() < 4 || p > data.len() - 4 {
            return Err(Error::IoError);
        }
        let (tcode, p2) = match read_u16(data, p) {
            Ok(t) => t,
            Err(e) => {
                return Err(e);
            },
        };
        let (word, p3) = match read_u16(data, p2) {
            Ok(t) => t,
            Err(e) => {
                return Err(e);
            },
        };
        let qtype = Type::from_code(tcode);
        let qclass = Class::from_code(word % 0x8000);
        proof {
            crate::enums::lemma_type_code_roundtrip(tcode);
            crate::enums::lemma_class_code_roundtrip((word % 0x8000) as u16);
        }
        Ok((Question { qname, prefer_unicast: word >= 0x8000, qtype, qclass }, p3))
    }

    /// Appends the wire form of this question.
    pub fn serialize(&self, out: &mut Vec<u8>) -> (r: Result<(), Error>)
        requires
            self.wf(),
        ensures
            r is Ok,
            final(out)@ == old(out)@ + question_bytes(self@),
    {
        let r = self.qname.serialize(out);
        push_u16(out, self.qtype.code());
        let mut cw: u16 = self.qclass.code();
        if self.prefer_unicast {
            cw = cw + 0x8000;
        }
        push_u16(out, cw);
        proof {
            assert(out@ =~= old(out)@ + question_bytes(self@));
        }
        Ok(())
    }
}

} // verus!
